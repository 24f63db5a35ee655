use vstd::prelude::*;
use crate::text::{
    chars_of, count_leading_spaces, has_prefix, law_lines_joined, lemma_leading_spaces_bound, lines,
    split_lines,
    starts_with_at, string_of, trim_start,
};

verus! {

broadcast use vstd::string::group_string_axioms;

/// The foreground colours that rendered markdown uses.
#[derive(Clone, Copy, PartialEq, Eq, Debug)]
pub enum Color {
    Yellow,
    Cyan,
    Blue,
    Magenta,
    DarkGray,
}

/// How a span of text is shown: an optional foreground colour, bold, italic.
#[derive(Clone, Copy, PartialEq, Eq, Debug)]
pub struct SpanStyle {
    pub fg: Option<Color>,
    pub bold: bool,
    pub italic: bool,
}

/// A run of text in one style.
pub struct StyledSpan {
    pub text: String,
    pub style: SpanStyle,
}

/// One line of rendered text: its spans, left to right.
pub struct StyledLine {
    pub spans: Vec<StyledSpan>,
}

impl View for StyledSpan {
    type V = (Seq<char>, SpanStyle);

    open spec fn view(&self) -> (Seq<char>, SpanStyle) {
        (self.text@, self.style)
    }
}

/// The spans of `v`, each by its view.
pub open spec fn spans_view(v: Seq<StyledSpan>) -> Seq<(Seq<char>, SpanStyle)> {
    v.map_values(|s: StyledSpan| s@)
}

impl View for StyledLine {
    type V = Seq<(Seq<char>, SpanStyle)>;

    open spec fn view(&self) -> Seq<(Seq<char>, SpanStyle)> {
        spans_view(self.spans@)
    }
}

/// The lines of `v`, each by its view.
pub open spec fn lines_view(v: Seq<StyledLine>) -> Seq<Seq<(Seq<char>, SpanStyle)>> {
    v.map_values(|l: StyledLine| l@)
}

pub open spec fn style_of(fg: Option<Color>, bold: bool, italic: bool) -> SpanStyle {
    SpanStyle { fg, bold, italic }
}

/// The default style: no colour, neither bold nor italic.
pub open spec fn plain() -> SpanStyle {
    style_of(None, false, false)
}

// ---------------------------------------------------------------------------
// Inline markup: **bold**, *italic*, `code`
// ---------------------------------------------------------------------------

/// The first position `k >= j` where `**` starts, or `cs.len()`.
pub open spec fn find_double_star(cs: Seq<char>, j: int) -> int
    decreases cs.len() - j,
{
    if j >= cs.len() {
        cs.len() as int
    } else if j + 1 < cs.len() && cs[j] == '*' && cs[j + 1] == '*' {
        j
    } else {
        find_double_star(cs, j + 1)
    }
}

/// The first position `k >= j` that holds `c`, or `cs.len()`.
pub open spec fn find_char(cs: Seq<char>, c: char, j: int) -> int
    decreases cs.len() - j,
{
    if j >= cs.len() {
        cs.len() as int
    } else if cs[j] == c {
        j
    } else {
        find_char(cs, c, j + 1)
    }
}

pub proof fn lemma_find_double_star(cs: Seq<char>, j: int)
    requires
        0 <= j <= cs.len(),
    ensures
        j <= find_double_star(cs, j) <= cs.len(),
        find_double_star(cs, j) < cs.len() ==> find_double_star(cs, j) + 1 < cs.len(),
        find_double_star(cs, j) < cs.len() ==> cs[find_double_star(cs, j)] == '*' && cs[find_double_star(cs, j) + 1] == '*',
    decreases cs.len() - j,
{
    if j < cs.len() && !(j + 1 < cs.len() && cs[j] == '*' && cs[j + 1] == '*') {
        lemma_find_double_star(cs, j + 1);
    }
}

pub proof fn lemma_find_char(cs: Seq<char>, c: char, j: int)
    requires
        0 <= j <= cs.len(),
    ensures
        j <= find_char(cs, c, j) <= cs.len(),
        find_char(cs, c, j) < cs.len() ==> cs[find_char(cs, c, j)] == c,
    decreases cs.len() - j,
{
    if j < cs.len() && cs[j] != c {
        lemma_find_char(cs, c, j + 1);
    }
}

/// The pending plain text `buf` as a span, if there is any.
pub open spec fn flush(buf: Seq<char>) -> Seq<(Seq<char>, SpanStyle)> {
    if buf.len() == 0 {
        seq![]
    } else {
        seq![(buf, plain())]
    }
}

/// Where a `**` span that opens at `i` ends, and where the scan resumes.
pub open spec fn bold_end(cs: Seq<char>, i: int) -> (int, int) {
    let k = find_double_star(cs, i + 2);
    (k, if k < cs.len() { k + 2 } else { cs.len() as int })
}

/// Where a span delimited by `c` that opens at `i` ends, and where the scan resumes.
pub open spec fn delimited_end(cs: Seq<char>, c: char, i: int) -> (int, int) {
    let k = find_char(cs, c, i + 1);
    (k, if k < cs.len() { k + 1 } else { cs.len() as int })
}

pub open spec fn opens_bold(cs: Seq<char>, i: int) -> bool {
    i + 1 < cs.len() && cs[i] == '*' && cs[i + 1] == '*'
}

/// The spans of `cs[i..]`, with the plain text `buf` read before `i` and not
/// yet emitted.
pub open spec fn scan_inline(cs: Seq<char>, i: int, buf: Seq<char>) -> Seq<
    (Seq<char>, SpanStyle),
>
    decreases cs.len() - i,
{
    if i < 0 || i >= cs.len() {
        flush(buf)
    } else if opens_bold(cs, i) {
        let (k, next) = bold_end(cs, i);
        proof {
            lemma_find_double_star(cs, i + 2);
        }
        flush(buf) + seq![(cs.subrange(i + 2, k), style_of(None, true, false))] + scan_inline(
            cs,
            next,
            seq![],
        )
    } else if cs[i] == '*' {
        let (k, next) = delimited_end(cs, '*', i);
        proof {
            lemma_find_char(cs, '*', i + 1);
        }
        flush(buf) + seq![(cs.subrange(i + 1, k), style_of(None, false, true))] + scan_inline(
            cs,
            next,
            seq![],
        )
    } else if cs[i] == '`' {
        let (k, next) = delimited_end(cs, '`', i);
        proof {
            lemma_find_char(cs, '`', i + 1);
        }
        flush(buf) + seq![(cs.subrange(i + 1, k), style_of(Some(Color::Yellow), false, false))]
            + scan_inline(cs, next, seq![])
    } else {
        scan_inline(cs, i + 1, buf.push(cs[i]))
    }
}

/// The spans of a text with inline markup: `**bold**`, `*italic*` and
/// `` `code` `` spans, plain text between them; a span that is not closed
/// runs to the end; a text with no span at all gives one empty plain span.
pub open spec fn inline_spans(cs: Seq<char>) -> Seq<(Seq<char>, SpanStyle)> {
    let spans = scan_inline(cs, 0, seq![]);
    if spans.len() == 0 {
        seq![(seq![], plain())]
    } else {
        spans
    }
}

fn new_span(text: String, fg: Option<Color>, bold: bool, italic: bool) -> (s: StyledSpan)
    ensures
        s@ == (text@, style_of(fg, bold, italic)),
{
    StyledSpan { text, style: SpanStyle { fg, bold, italic } }
}

/// Emits the pending plain text, if any.
fn flush_buf(out: &mut Vec<StyledSpan>, buf: &mut Vec<char>)
    ensures
        spans_view(final(out)@) == spans_view(old(out)@) + flush(old(buf)@),
        final(buf)@ == Seq::<char>::empty(),
{
    if buf.len() > 0 {
        let text = string_of(buf, 0, buf.len());
        assert(buf@.subrange(0, buf@.len() as int) =~= buf@);
        let ghost before = out@;
        out.push(new_span(text, None, false, false));
        assert(spans_view(out@) =~= spans_view(before) + flush(old(buf)@));
    } else {
        assert(spans_view(out@) =~= spans_view(out@) + flush(buf@));
    }
    *buf = Vec::new();
}

/// The spans of `cs` with inline markup read.
pub fn parse_inline(cs: &Vec<char>) -> (out: Vec<StyledSpan>)
    ensures
        spans_view(out@) == inline_spans(cs@),
{
    let mut out: Vec<StyledSpan> = Vec::new();
    let mut buf: Vec<char> = Vec::new();
    let mut i: usize = 0;
    let n = cs.len();
    while i < n
        invariant
            n == cs.len(),
            i <= n,
            spans_view(out@) + scan_inline(cs@, i as int, buf@) == scan_inline(
                cs@,
                0,
                seq![],
            ),
        decreases n - i,
    {
        let ghost before = spans_view(out@);
        let ghost old_buf = buf@;
        let ghost at = i as int;
        if i + 1 < n && cs[i] == '*' && cs[i + 1] == '*' {
            flush_buf(&mut out, &mut buf);
            i = i + 2;
            let start = i;
            let mut inner: Vec<char> = Vec::new();
            proof {
                lemma_find_double_star(cs@, start as int);
            }
            while i < n
                invariant_except_break
                    n == cs.len(),
                    start <= i <= n,
                    inner@ == cs@.subrange(start as int, i as int),
                    find_double_star(cs@, start as int) == find_double_star(cs@, i as int),
                ensures
                    ({
                        let k = find_double_star(cs@, start as int);
                        &&& inner@ == cs@.subrange(start as int, k)
                        &&& i == (if k < n { k + 2 } else { n as int })
                    }),
                decreases n - i,
            {
                if i + 1 < n && cs[i] == '*' && cs[i + 1] == '*' {
                    i = i + 2;
                    break;
                }
                inner.push(cs[i]);
                i = i + 1;
                assert(inner@ =~= cs@.subrange(start as int, i as int));
            }
            let text = string_of(&inner, 0, inner.len());
            assert(inner@.subrange(0, inner@.len() as int) =~= inner@);
            let ghost mid = out@;
            let span = new_span(text, None, true, false);
            assert(scan_inline(cs@, at, old_buf) == flush(old_buf) + seq![span@] + scan_inline(
                cs@,
                i as int,
                seq![],
            ));
            out.push(span);
            assert(spans_view(out@) =~= spans_view(mid).push(span@));
            assert(spans_view(out@) + scan_inline(cs@, i as int, buf@) =~= before + scan_inline(
                cs@,
                at,
                old_buf,
            ));
        } else if cs[i] == '*' || cs[i] == '`' {
            let delim = cs[i];
            flush_buf(&mut out, &mut buf);
            i = i + 1;
            let start = i;
            let mut inner: Vec<char> = Vec::new();
            proof {
                lemma_find_char(cs@, delim, start as int);
            }
            while i < n && cs[i] != delim
                invariant
                    n == cs.len(),
                    start <= i <= n,
                    inner@ == cs@.subrange(start as int, i as int),
                    find_char(cs@, delim, start as int) == find_char(cs@, delim, i as int),
                decreases n - i,
            {
                inner.push(cs[i]);
                i = i + 1;
                assert(inner@ =~= cs@.subrange(start as int, i as int));
            }
            if i < n {
                i = i + 1;
            }
            let text = string_of(&inner, 0, inner.len());
            assert(inner@.subrange(0, inner@.len() as int) =~= inner@);
            let ghost mid = out@;
            let span = if delim == '*' {
                new_span(text, None, false, true)
            } else {
                new_span(text, Some(Color::Yellow), false, false)
            };
            assert(scan_inline(cs@, at, old_buf) == flush(old_buf) + seq![span@] + scan_inline(
                cs@,
                i as int,
                seq![],
            ));
            out.push(span);
            assert(spans_view(out@) =~= spans_view(mid).push(span@));
            assert(spans_view(out@) + scan_inline(cs@, i as int, buf@) =~= before + scan_inline(
                cs@,
                at,
                old_buf,
            ));
        } else {
            buf.push(cs[i]);
            i = i + 1;
        }
    }
    flush_buf(&mut out, &mut buf);
    assert(spans_view(out@) =~= scan_inline(cs@, 0, seq![]));
    if out.len() == 0 {
        out.push(new_span(String::new(), None, false, false));
        assert(spans_view(out@) =~= inline_spans(cs@));
    }
    out
}


// ---------------------------------------------------------------------------
// Block structure: headings, lists, quotes, rules, fenced code
// ---------------------------------------------------------------------------

pub open spec fn code_fence() -> Seq<char> {
    seq!['`', '`', '`']
}

/// A line that opens or closes a fenced code block: after its leading white
/// space it begins with three backticks.
pub open spec fn is_fence(l: Seq<char>) -> bool {
    has_prefix(trim_start(l), code_fence())
}

/// A heading marker of `level` hashes followed by a space.
pub open spec fn heading_mark(level: nat) -> Seq<char> {
    Seq::new(level, |k: int| '#').push(' ')
}

/// The horizontal rule that `---`, `***` and `___` become: sixty box-drawing dashes.
pub open spec fn rule_text() -> Seq<char> {
    Seq::new(60, |k: int| '\u{2500}')
}

pub open spec fn bullet_text() -> Seq<char> {
    seq![' ', ' ', '\u{2022}', ' ']
}

pub open spec fn quote_mark() -> Seq<char> {
    seq!['\u{258c}', ' ']
}

pub open spec fn is_rule(l: Seq<char>) -> bool {
    l == seq!['-', '-', '-'] || l == seq!['*', '*', '*'] || l == seq!['_', '_', '_']
}

/// The spans of one line that is not a fence, inside a code block or not.
pub open spec fn render_line(l: Seq<char>, in_code: bool) -> Seq<(Seq<char>, SpanStyle)> {
    if in_code {
        seq![(seq![' ', ' '] + l, style_of(Some(Color::Yellow), false, false))]
    } else if has_prefix(l, heading_mark(1)) {
        seq![(l.skip(2), style_of(Some(Color::Cyan), true, false))]
    } else if has_prefix(l, heading_mark(2)) {
        seq![(l.skip(3), style_of(Some(Color::Blue), true, false))]
    } else if has_prefix(l, heading_mark(3)) {
        seq![(l.skip(4), style_of(None, true, false))]
    } else if has_prefix(l, heading_mark(4)) {
        seq![(l.skip(5), style_of(Some(Color::Magenta), false, false))]
    } else if has_prefix(l, seq!['-', ' ']) || has_prefix(l, seq!['*', ' ']) {
        seq![(bullet_text(), plain())] + inline_spans(l.skip(2))
    } else if has_prefix(l, seq!['>', ' ']) {
        seq![(quote_mark() + l.skip(2), style_of(Some(Color::DarkGray), false, true))]
    } else if is_rule(l) {
        seq![(rule_text(), style_of(Some(Color::DarkGray), false, false))]
    } else {
        inline_spans(l)
    }
}

/// Whether a code block is open after the lines `ls`: each fence toggles it.
pub open spec fn code_open_after(ls: Seq<Seq<char>>) -> bool
    decreases ls.len(),
{
    if ls.len() == 0 {
        false
    } else {
        let open = code_open_after(ls.drop_last());
        if is_fence(ls.last()) {
            !open
        } else {
            open
        }
    }
}

/// The rendered lines of `ls`: fences give no line, every other line gives one.
pub open spec fn render_lines(ls: Seq<Seq<char>>) -> Seq<Seq<(Seq<char>, SpanStyle)>>
    decreases ls.len(),
{
    if ls.len() == 0 {
        seq![]
    } else {
        let before = render_lines(ls.drop_last());
        if is_fence(ls.last()) {
            before
        } else {
            before.push(render_line(ls.last(), code_open_after(ls.drop_last())))
        }
    }
}

/// The rendered lines of a markdown text.
pub open spec fn rendered(content: Seq<char>) -> Seq<Seq<(Seq<char>, SpanStyle)>> {
    render_lines(lines(content))
}

fn single_span_line(text: String, fg: Option<Color>, bold: bool, italic: bool) -> (l: StyledLine)
    ensures
        l@ == seq![(text@, style_of(fg, bold, italic))],
{
    let mut spans: Vec<StyledSpan> = Vec::new();
    spans.push(new_span(text, fg, bold, italic));
    let l = StyledLine { spans };
    assert(l@ =~= seq![(text@, style_of(fg, bold, italic))]);
    l
}

/// Whether `l` is a fence line.
fn fence(l: &Vec<char>) -> (b: bool)
    ensures
        b == is_fence(l@),
{
    let lead = count_leading_spaces(l);
    proof {
        lemma_leading_spaces_bound(l@);
    }
    starts_with_at(l, lead, &vec!['`', '`', '`'])
}

fn prefixed(l: &Vec<char>, p: Vec<char>) -> (b: bool)
    ensures
        b == has_prefix(l@, p@),
{
    let b = starts_with_at(l, 0, &p);
    assert(l@.skip(0) =~= l@);
    b
}

fn string_with_prefix(p: Vec<char>, l: &Vec<char>, from: usize) -> (s: String)
    requires
        from <= l.len(),
    ensures
        s@ == p@ + l@.skip(from as int),
{
    let mut s = string_of(&p, 0, p.len());
    let mut i = from;
    assert(p@.subrange(0, p@.len() as int) =~= p@);
    while i < l.len()
        invariant
            from <= i <= l.len(),
            s@ == p@ + l@.subrange(from as int, i as int),
        decreases l.len() - i,
    {
        s.push(l[i]);
        i = i + 1;
        assert(s@ =~= p@ + l@.subrange(from as int, i as int));
    }
    assert(l@.subrange(from as int, i as int) =~= l@.skip(from as int));
    s
}

fn tail_from(l: &Vec<char>, from: usize) -> (t: Vec<char>)
    requires
        from <= l.len(),
    ensures
        t@ == l@.skip(from as int),
{
    let mut t: Vec<char> = Vec::new();
    let mut i = from;
    while i < l.len()
        invariant
            from <= i <= l.len(),
            t@ == l@.subrange(from as int, i as int),
        decreases l.len() - i,
    {
        t.push(l[i]);
        i = i + 1;
        assert(t@ =~= l@.subrange(from as int, i as int));
    }
    t
}

/// Renders one line that is not a fence.
fn render_one(l: &Vec<char>, in_code: bool) -> (out: StyledLine)
    ensures
        out@ == render_line(l@, in_code),
{
    assert(heading_mark(1) =~= seq!['#', ' ']);
    assert(heading_mark(2) =~= seq!['#', '#', ' ']);
    assert(heading_mark(3) =~= seq!['#', '#', '#', ' ']);
    assert(heading_mark(4) =~= seq!['#', '#', '#', '#', ' ']);
    if in_code {
        let t = string_with_prefix(vec![' ', ' '], l, 0);
        assert(l@.skip(0) =~= l@);
        single_span_line(t, Some(Color::Yellow), false, false)
    } else if prefixed(l, vec!['#', ' ']) {
        single_span_line(string_with_prefix(Vec::new(), l, 2), Some(Color::Cyan), true, false)
    } else if prefixed(l, vec!['#', '#', ' ']) {
        single_span_line(string_with_prefix(Vec::new(), l, 3), Some(Color::Blue), true, false)
    } else if prefixed(l, vec!['#', '#', '#', ' ']) {
        single_span_line(string_with_prefix(Vec::new(), l, 4), None, true, false)
    } else if prefixed(l, vec!['#', '#', '#', '#', ' ']) {
        single_span_line(string_with_prefix(Vec::new(), l, 5), Some(Color::Magenta), false, false)
    } else if prefixed(l, vec!['-', ' ']) || prefixed(l, vec!['*', ' ']) {
        let rest = tail_from(l, 2);
        let inner = parse_inline(&rest);
        let mut spans: Vec<StyledSpan> = Vec::new();
        let mark = vec![' ', ' ', '\u{2022}', ' '];
        let bullet = string_of(&mark, 0, 4);
        assert(mark@.subrange(0, 4) =~= bullet_text());
        spans.push(new_span(bullet, None, false, false));
        let mut inner = inner;
        let ghost tail = inner@;
        spans.append(&mut inner);
        assert(spans_view(spans@) =~= seq![(bullet_text(), plain())] + spans_view(tail));
        let out = StyledLine { spans };
        assert(out@ =~= render_line(l@, in_code));
        out
    } else if prefixed(l, vec!['>', ' ']) {
        let t = string_with_prefix(vec!['\u{258c}', ' '], l, 2);
        single_span_line(t, Some(Color::DarkGray), false, true)
    } else if l.len() == 3 && ((l[0] == '-' && l[1] == '-' && l[2] == '-') || (l[0] == '*' && l[1]
        == '*' && l[2] == '*') || (l[0] == '_' && l[1] == '_' && l[2] == '_')) {
        assert(is_rule(l@)) by {
            if l[0] == '-' {
                assert(l@ =~= seq!['-', '-', '-']);
            } else if l[0] == '*' {
                assert(l@ =~= seq!['*', '*', '*']);
            } else {
                assert(l@ =~= seq!['_', '_', '_']);
            }
        }
        let mut t = String::new();
        let mut k: usize = 0;
        while k < 60
            invariant
                k <= 60,
                t@ == Seq::new(k as nat, |m: int| '\u{2500}'),
            decreases 60 - k,
        {
            t.push('\u{2500}');
            k = k + 1;
            assert(t@ =~= Seq::new(k as nat, |m: int| '\u{2500}'));
        }
        single_span_line(t, Some(Color::DarkGray), false, false)
    } else {
        assert(!is_rule(l@)) by {
            if l@ == seq!['-', '-', '-'] {
                assert(l@[0] == '-' && l@[1] == '-' && l@[2] == '-');
            }
            if l@ == seq!['*', '*', '*'] {
                assert(l@[0] == '*' && l@[1] == '*' && l@[2] == '*');
            }
            if l@ == seq!['_', '_', '_'] {
                assert(l@[0] == '_' && l@[1] == '_' && l@[2] == '_');
            }
        }
        let spans = parse_inline(l);
        StyledLine { spans }
    }
}

/// Renders markdown text line by line: headings, list items, quotes, rules,
/// fenced code blocks, and inline markup in the other lines.
pub fn render(content: &str) -> (out: Vec<StyledLine>)
    ensures
        lines_view(out@) == rendered(content@),
{
    let cs = chars_of(content);
    let ls = split_lines(&cs);
    let mut out: Vec<StyledLine> = Vec::new();
    let mut in_code = false;
    let mut i: usize = 0;
    while i < ls.len()
        invariant
            i <= ls.len(),
            ls.deep_view() == lines(content@),
            lines_view(out@) == render_lines(ls.deep_view().take(i as int)),
            in_code == code_open_after(ls.deep_view().take(i as int)),
        decreases ls.len() - i,
    {
        let ghost prefix = ls.deep_view().take(i as int);
        let ghost next = ls.deep_view().take(i + 1);
        assert(next.drop_last() =~= prefix);
        assert(ls@[i as int]@ =~= ls.deep_view()[i as int]);
        assert(next.last() == ls@[i as int]@);
        if fence(&ls[i]) {
            in_code = !in_code;
        } else {
            let ghost before = out@;
            let line = render_one(&ls[i], in_code);
            out.push(line);
            assert(lines_view(out@) =~= lines_view(before).push(render_line(ls@[i as int]@, in_code)));
        }
        i = i + 1;
    }
    assert(ls.deep_view().take(i as int) =~= ls.deep_view());
    out
}

/// The number of lines that `render` gives for `content`.
pub open spec fn rendered_len(content: Seq<char>) -> nat {
    rendered(content).len()
}

/// Text with no markup character reads as plain text, from any position.
proof fn lemma_scan_plain(cs: Seq<char>, i: int, buf: Seq<char>)
    requires
        0 <= i <= cs.len(),
        forall|k: int| 0 <= k < cs.len() ==> #[trigger] cs[k] != '*' && cs[k] != '`',
    ensures
        scan_inline(cs, i, buf) == flush(buf + cs.subrange(i, cs.len() as int)),
    decreases cs.len() - i,
{
    if i < cs.len() {
        assert(cs[i] != '*' && cs[i] != '`');
        lemma_scan_plain(cs, i + 1, buf.push(cs[i]));
        assert(buf.push(cs[i]) + cs.subrange(i + 1, cs.len() as int) =~= buf + cs.subrange(
            i,
            cs.len() as int,
        ));
    } else {
        assert(buf + cs.subrange(i, cs.len() as int) =~= buf);
    }
}

/// A text without `*` or backquote is shown as it is, in one plain span.
pub proof fn law_plain_text_is_one_span(cs: Seq<char>)
    requires
        forall|k: int| 0 <= k < cs.len() ==> #[trigger] cs[k] != '*' && cs[k] != '`',
    ensures
        inline_spans(cs) == seq![(cs, plain())],
{
    lemma_scan_plain(cs, 0, seq![]);
    assert(Seq::<char>::empty() + cs.subrange(0, cs.len() as int) =~= cs);
}

/// The inline markup characters: `*` and backquote.
pub open spec fn is_marker(c: char) -> bool {
    c == '*' || c == '`'
}

/// The characters of `s` that are not markup characters, in order.
pub open spec fn text_chars(s: Seq<char>) -> Seq<char>
    decreases s.len(),
{
    if s.len() == 0 {
        seq![]
    } else if is_marker(s[0]) {
        text_chars(s.drop_first())
    } else {
        seq![s[0]] + text_chars(s.drop_first())
    }
}

/// The texts of `spans`, one after the other.
pub open spec fn spans_text(spans: Seq<(Seq<char>, SpanStyle)>) -> Seq<char>
    decreases spans.len(),
{
    if spans.len() == 0 {
        seq![]
    } else {
        spans[0].0 + spans_text(spans.drop_first())
    }
}

pub proof fn lemma_text_chars_add(a: Seq<char>, b: Seq<char>)
    ensures
        text_chars(a + b) == text_chars(a) + text_chars(b),
    decreases a.len(),
{
    if a.len() == 0 {
        assert(a + b =~= b);
        assert(text_chars(a) =~= Seq::<char>::empty());
        assert(text_chars(b) =~= text_chars(a) + text_chars(b));
    } else {
        assert((a + b).drop_first() =~= a.drop_first() + b);
        assert((a + b)[0] == a[0]);
        lemma_text_chars_add(a.drop_first(), b);
        if !is_marker(a[0]) {
            assert(seq![a[0]] + (text_chars(a.drop_first()) + text_chars(b)) =~= (seq![a[0]]
                + text_chars(a.drop_first())) + text_chars(b));
        }
    }
}

pub proof fn lemma_spans_text_add(
    a: Seq<(Seq<char>, SpanStyle)>,
    b: Seq<(Seq<char>, SpanStyle)>,
)
    ensures
        spans_text(a + b) == spans_text(a) + spans_text(b),
    decreases a.len(),
{
    if a.len() == 0 {
        assert(a + b =~= b);
        assert(spans_text(b) =~= spans_text(a) + spans_text(b));
    } else {
        assert((a + b).drop_first() =~= a.drop_first() + b);
        assert((a + b)[0] == a[0]);
        lemma_spans_text_add(a.drop_first(), b);
        assert(a[0].0 + (spans_text(a.drop_first()) + spans_text(b)) =~= (a[0].0 + spans_text(
            a.drop_first(),
        )) + spans_text(b));
    }
}

proof fn lemma_spans_text_one(t: Seq<char>, st: SpanStyle)
    ensures
        spans_text(seq![(t, st)]) == t,
{
    assert(seq![(t, st)].drop_first() =~= Seq::<(Seq<char>, SpanStyle)>::empty());
    assert(spans_text(Seq::<(Seq<char>, SpanStyle)>::empty()) == Seq::<char>::empty());
    assert(seq![(t, st)][0] == (t, st));
    assert(t + Seq::<char>::empty() =~= t);
}

proof fn lemma_flush_text(buf: Seq<char>)
    ensures
        spans_text(flush(buf)) == buf,
{
    if buf.len() == 0 {
        assert(spans_text(flush(buf)) =~= buf);
    } else {
        lemma_spans_text_one(buf, plain());
    }
}

proof fn lemma_text_chars_markers(s: Seq<char>)
    requires
        forall|k: int| 0 <= k < s.len() ==> is_marker(#[trigger] s[k]),
    ensures
        text_chars(s) == Seq::<char>::empty(),
    decreases s.len(),
{
    if s.len() > 0 {
        assert(is_marker(s[0]));
        lemma_text_chars_markers(s.drop_first());
    }
}

/// Scanning `cs[i..]` with pending text `buf` keeps the non-markup
/// characters of `buf` and `cs[i..]` in order, and adds no character.
proof fn lemma_scan_keeps_text(cs: Seq<char>, i: int, buf: Seq<char>)
    requires
        0 <= i <= cs.len(),
        forall|k: int| 0 <= k < buf.len() ==> !is_marker(#[trigger] buf[k]),
    ensures
        text_chars(spans_text(scan_inline(cs, i, buf))) == text_chars(buf + cs.subrange(
            i,
            cs.len() as int,
        )),
        spans_text(scan_inline(cs, i, buf)).len() <= buf.len() + cs.len() - i,
    decreases cs.len() - i,
{
    let n = cs.len() as int;
    let rest = cs.subrange(i, n);
    lemma_flush_text(buf);
    if i >= n {
        assert(buf + rest =~= buf);
    } else if opens_bold(cs, i) {
        let (k, next) = bold_end(cs, i);
        lemma_find_double_star(cs, i + 2);
        lemma_scan_keeps_text(cs, next, seq![]);
        let inner = cs.subrange(i + 2, k);
        let tail = scan_inline(cs, next, seq![]);
        lemma_spans_text_one(inner, style_of(None, true, false));
        lemma_spans_text_add(flush(buf), seq![(inner, style_of(None, true, false))]);
        lemma_spans_text_add(flush(buf) + seq![(inner, style_of(None, true, false))], tail);
        let gap = cs.subrange(k, next);
        assert forall|m: int| 0 <= m < gap.len() implies is_marker(#[trigger] gap[m]) by {
            assert(gap[m] == cs[k + m]);
        }
        lemma_text_chars_markers(gap);
        lemma_text_chars_markers(cs.subrange(i, i + 2));
        assert(rest =~= cs.subrange(i, i + 2) + inner + gap + cs.subrange(next, n));
        assert(Seq::<char>::empty() + cs.subrange(next, n) =~= cs.subrange(next, n));
        lemma_text_chars_add(cs.subrange(i, i + 2) + inner + gap, cs.subrange(next, n));
        lemma_text_chars_add(cs.subrange(i, i + 2) + inner, gap);
        lemma_text_chars_add(cs.subrange(i, i + 2), inner);
        lemma_text_chars_add(buf, rest);
        lemma_text_chars_add(buf + inner, spans_text(tail));
        lemma_text_chars_add(buf, inner);
        assert(text_chars(cs.subrange(i, i + 2)) + text_chars(inner) =~= text_chars(inner));
        assert(text_chars(inner) + text_chars(gap) =~= text_chars(inner));
    } else if is_marker(cs[i]) {
        let c = cs[i];
        let (k, next) = delimited_end(cs, c, i);
        lemma_find_char(cs, c, i + 1);
        lemma_scan_keeps_text(cs, next, seq![]);
        let st = if c == '*' {
            style_of(None, false, true)
        } else {
            style_of(Some(Color::Yellow), false, false)
        };
        let inner = cs.subrange(i + 1, k);
        let tail = scan_inline(cs, next, seq![]);
        assert(scan_inline(cs, i, buf) == flush(buf) + seq![(inner, st)] + tail);
        lemma_spans_text_one(inner, st);
        lemma_spans_text_add(flush(buf), seq![(inner, st)]);
        lemma_spans_text_add(flush(buf) + seq![(inner, st)], tail);
        let gap = cs.subrange(k, next);
        assert forall|m: int| 0 <= m < gap.len() implies is_marker(#[trigger] gap[m]) by {
            assert(gap[m] == cs[k + m]);
        }
        lemma_text_chars_markers(gap);
        lemma_text_chars_markers(cs.subrange(i, i + 1));
        assert(rest =~= cs.subrange(i, i + 1) + inner + gap + cs.subrange(next, n));
        assert(Seq::<char>::empty() + cs.subrange(next, n) =~= cs.subrange(next, n));
        lemma_text_chars_add(cs.subrange(i, i + 1) + inner + gap, cs.subrange(next, n));
        lemma_text_chars_add(cs.subrange(i, i + 1) + inner, gap);
        lemma_text_chars_add(cs.subrange(i, i + 1), inner);
        lemma_text_chars_add(buf, rest);
        lemma_text_chars_add(buf + inner, spans_text(tail));
        lemma_text_chars_add(buf, inner);
        assert(text_chars(cs.subrange(i, i + 1)) + text_chars(inner) =~= text_chars(inner));
        assert(text_chars(inner) + text_chars(gap) =~= text_chars(inner));
    } else {
        let b2 = buf.push(cs[i]);
        assert forall|k: int| 0 <= k < b2.len() implies !is_marker(#[trigger] b2[k]) by {
            if k < buf.len() {
                assert(b2[k] == buf[k]);
            }
        }
        lemma_scan_keeps_text(cs, i + 1, b2);
        assert(b2 + cs.subrange(i + 1, n) =~= buf + rest);
    }
}

/// Inline markup keeps every character that is not a markup character, in
/// order, and adds none: the spans' texts hold no more characters than the
/// input.
pub proof fn law_inline_keeps_text(cs: Seq<char>)
    ensures
        text_chars(spans_text(inline_spans(cs))) == text_chars(cs),
        spans_text(inline_spans(cs)).len() <= cs.len(),
{
    lemma_scan_keeps_text(cs, 0, seq![]);
    assert(Seq::<char>::empty() + cs.subrange(0, cs.len() as int) =~= cs);
    if scan_inline(cs, 0, seq![]).len() == 0 {
        lemma_spans_text_one(seq![], plain());
        assert(spans_text(scan_inline(cs, 0, seq![])) =~= Seq::<char>::empty());
    }
}

/// The number of fence lines among `ls`.
pub open spec fn fence_count(ls: Seq<Seq<char>>) -> nat
    decreases ls.len(),
{
    if ls.len() == 0 {
        0
    } else if is_fence(ls.last()) {
        fence_count(ls.drop_last()) + 1
    } else {
        fence_count(ls.drop_last())
    }
}

/// A code block is open after an odd number of fences.
pub proof fn lemma_code_open_parity(ls: Seq<Seq<char>>)
    ensures
        code_open_after(ls) == (fence_count(ls) % 2 == 1),
    decreases ls.len(),
{
    if ls.len() > 0 {
        lemma_code_open_parity(ls.drop_last());
    }
}

/// After lines that leave no code block open, the block state is that of
/// the lines that follow, alone.
proof fn lemma_code_open_append(l1: Seq<Seq<char>>, l2: Seq<Seq<char>>)
    requires
        !code_open_after(l1),
    ensures
        code_open_after(l1 + l2) == code_open_after(l2),
    decreases l2.len(),
{
    if l2.len() == 0 {
        assert(l1 + l2 =~= l1);
    } else {
        lemma_code_open_append(l1, l2.drop_last());
        assert((l1 + l2).drop_last() =~= l1 + l2.drop_last());
        assert((l1 + l2).last() == l2.last());
    }
}

proof fn lemma_render_lines_append(l1: Seq<Seq<char>>, l2: Seq<Seq<char>>)
    requires
        !code_open_after(l1),
    ensures
        render_lines(l1 + l2) == render_lines(l1) + render_lines(l2),
    decreases l2.len(),
{
    if l2.len() == 0 {
        assert(l1 + l2 =~= l1);
        assert(render_lines(l1) + render_lines(l2) =~= render_lines(l1));
    } else {
        lemma_render_lines_append(l1, l2.drop_last());
        assert((l1 + l2).drop_last() =~= l1 + l2.drop_last());
        assert((l1 + l2).last() == l2.last());
        lemma_code_open_append(l1, l2.drop_last());
        if !is_fence(l2.last()) {
            let r = render_line(l2.last(), code_open_after(l2.drop_last()));
            assert((render_lines(l1) + render_lines(l2.drop_last())).push(r) =~= render_lines(l1)
                + render_lines(l2.drop_last()).push(r));
        }
    }
}

/// Rendering two texts joined by a line feed gives the rendering of the
/// first and then that of the second, when the first is not empty, ends
/// with neither a line feed nor a carriage return, and has an even number
/// of fence lines (it leaves no code block open).
pub proof fn law_render_joined(a: Seq<char>, b: Seq<char>)
    requires
        a.len() > 0,
        a.last() != '\n',
        a.last() != '\r',
        fence_count(lines(a)) % 2 == 0,
    ensures
        rendered(a + seq!['\n'] + b) == rendered(a) + rendered(b),
{
    law_lines_joined(a, b);
    lemma_code_open_parity(lines(a));
    lemma_render_lines_append(lines(a), lines(b));
}

/// Inside a fenced code block a line is shown whole: after an odd number of
/// fences, a line that is not a fence adds exactly one rendered line, in
/// yellow, that is two spaces followed by the line unchanged (its leading
/// white space and any markdown marks included).
pub proof fn law_code_line_kept_whole(ls: Seq<Seq<char>>, l: Seq<char>)
    requires
        fence_count(ls) % 2 == 1,
        !is_fence(l),
    ensures
        render_lines(ls.push(l)) == render_lines(ls).push(
            seq![(seq![' ', ' '] + l, style_of(Some(Color::Yellow), false, false))],
        ),
{
    lemma_code_open_parity(ls);
    assert(ls.push(l).drop_last() =~= ls);
}

/// Outside a code block each markdown line adds one rendered line: `# `,
/// `## `, `### ` and `#### ` headings show their text (cyan and bold, blue
/// and bold, bold, magenta); `- ` and `* ` items show a bullet and then the
/// item's inline markup; `> ` quotes show a bar and the quoted text in dark
/// grey italics; `---`, `***` and `___` show a rule of sixty dashes.
pub proof fn law_block_lines(ls: Seq<Seq<char>>, t: Seq<char>)
    requires
        fence_count(ls) % 2 == 0,
    ensures
        ({
            let before = render_lines(ls);
            let after = |l: Seq<char>| render_lines(ls.push(l));
            let one = |text: Seq<char>, fg: Option<Color>, bold: bool, italic: bool|
                before.push(seq![(text, SpanStyle { fg, bold, italic })]);
            &&& after(seq!['#', ' '] + t) == one(t, Some(Color::Cyan), true, false)
            &&& after(seq!['#', '#', ' '] + t) == one(t, Some(Color::Blue), true, false)
            &&& after(seq!['#', '#', '#', ' '] + t) == one(t, None, true, false)
            &&& after(seq!['#', '#', '#', '#', ' '] + t) == one(t, Some(Color::Magenta), false, false)
            &&& after(seq!['-', ' '] + t) == before.push(
                seq![(seq![' ', ' ', '\u{2022}', ' '], SpanStyle { fg: None, bold: false, italic: false })]
                    + inline_spans(t),
            )
            &&& after(seq!['*', ' '] + t) == before.push(
                seq![(seq![' ', ' ', '\u{2022}', ' '], SpanStyle { fg: None, bold: false, italic: false })]
                    + inline_spans(t),
            )
            &&& after(seq!['>', ' '] + t) == one(
                seq!['\u{258c}', ' '] + t,
                Some(Color::DarkGray),
                false,
                true,
            )
            &&& after(seq!['-', '-', '-']) == one(
                Seq::new(60, |k: int| '\u{2500}'),
                Some(Color::DarkGray),
                false,
                false,
            )
            &&& after(seq!['*', '*', '*']) == after(seq!['-', '-', '-'])
            &&& after(seq!['_', '_', '_']) == after(seq!['-', '-', '-'])
        }),
{
    lemma_code_open_parity(ls);
    let ps: Seq<Seq<char>> = seq![
        seq!['#', ' '],
        seq!['#', '#', ' '],
        seq!['#', '#', '#', ' '],
        seq!['#', '#', '#', '#', ' '],
        seq!['-', ' '],
        seq!['*', ' '],
        seq!['>', ' '],
    ];
    assert forall|i: int| 0 <= i < ps.len() implies {
        let l = #[trigger] ps[i] + t;
        &&& ls.push(l).drop_last() == ls
        &&& ls.push(l).last() == l
        &&& !is_fence(l)
        &&& l.take(ps[i].len() as int) == ps[i]
        &&& l.skip(ps[i].len() as int) == t
    } by {
        let l = ps[i] + t;
        assert(ls.push(l).drop_last() =~= ls);
        assert(l.take(ps[i].len() as int) =~= ps[i]);
        assert(l.skip(ps[i].len() as int) =~= t);
        assert(!crate::text::is_space(l[0]));
        assert(trim_start(l) =~= l.skip(0));
        assert(l.skip(0) =~= l);
    }
    let l1 = ps[0] + t;
    let l2 = ps[1] + t;
    let l3 = ps[2] + t;
    let l4 = ps[3] + t;
    let l5 = ps[4] + t;
    let l6 = ps[5] + t;
    let l7 = ps[6] + t;
    assert(l2.take(2) != seq!['#', ' ']) by { assert(l2.take(2)[1] == '#'); }
    assert(l3.take(2) != seq!['#', ' ']) by { assert(l3.take(2)[1] == '#'); }
    assert(l3.take(3) != seq!['#', '#', ' ']) by { assert(l3.take(3)[2] == '#'); }
    assert(l4.take(2) != seq!['#', ' ']) by { assert(l4.take(2)[1] == '#'); }
    assert(l4.take(3) != seq!['#', '#', ' ']) by { assert(l4.take(3)[2] == '#'); }
    assert(l4.take(4) != seq!['#', '#', '#', ' ']) by { assert(l4.take(4)[3] == '#'); }
    assert(bullet_text() =~= seq![' ', ' ', '\u{2022}', ' ']);
    assert(heading_mark(1) =~= seq!['#', ' ']);
    assert(heading_mark(2) =~= seq!['#', '#', ' ']);
    assert(heading_mark(3) =~= seq!['#', '#', '#', ' ']);
    assert(heading_mark(4) =~= seq!['#', '#', '#', '#', ' ']);
    assert(has_prefix(l1, heading_mark(1)));
    assert(has_prefix(l2, heading_mark(2)));
    assert(has_prefix(l3, heading_mark(3)));
    assert(has_prefix(l4, heading_mark(4)));
    assert(l1.skip(2) =~= t);
    assert(l2.skip(3) =~= t);
    assert(l3.skip(4) =~= t);
    assert(l4.skip(5) =~= t);
    assert(l5.skip(2) =~= t);
    assert(l6.skip(2) =~= t);
    assert(l7.skip(2) =~= t);
    let rules: Seq<Seq<char>> = seq![seq!['-', '-', '-'], seq!['*', '*', '*'], seq!['_', '_', '_']];
    assert forall|i: int| 0 <= i < rules.len() implies {
        let l = #[trigger] rules[i];
        &&& ls.push(l).drop_last() == ls
        &&& ls.push(l).last() == l
        &&& !is_fence(l)
        &&& is_rule(l)
        &&& !has_prefix(l, heading_mark(1)) && !has_prefix(l, heading_mark(2))
        &&& !has_prefix(l, heading_mark(3)) && !has_prefix(l, heading_mark(4))
        &&& !has_prefix(l, seq!['-', ' ']) && !has_prefix(l, seq!['*', ' '])
        &&& !has_prefix(l, seq!['>', ' '])
    } by {
        let l = rules[i];
        assert(ls.push(l).drop_last() =~= ls);
        assert(trim_start(l) =~= l.skip(0));
        assert(l.skip(0) =~= l);
        assert(l.take(2)[1] == l[1]);
        assert(l.take(3)[2] == l[2]);
    }
    assert(rules[0] == seq!['-', '-', '-']);
    assert(rules[1] == seq!['*', '*', '*']);
    assert(rules[2] == seq!['_', '_', '_']);
}

/// Searching in `r` behind a prefix `q` finds what searching in `r` alone
/// finds, moved by the prefix's length.
proof fn lemma_find_shift(q: Seq<char>, r: Seq<char>, c: char, j: int)
    requires
        0 <= j <= r.len(),
    ensures
        find_double_star(q + r, q.len() + j) == q.len() + find_double_star(r, j),
        find_char(q + r, c, q.len() + j) == q.len() + find_char(r, c, j),
    decreases r.len() - j,
{
    let cs = q + r;
    if j < r.len() {
        assert(cs[q.len() + j] == r[j]);
        if j + 1 < r.len() {
            assert(cs[q.len() + j + 1] == r[j + 1]);
        }
        lemma_find_shift(q, r, c, j + 1);
    }
}

/// Reading `r` behind a prefix `q` gives the spans that reading `r` alone
/// gives.
proof fn lemma_scan_shift(q: Seq<char>, r: Seq<char>, i: int, buf: Seq<char>)
    requires
        0 <= i <= r.len(),
    ensures
        scan_inline(q + r, q.len() + i, buf) == scan_inline(r, i, buf),
    decreases r.len() - i,
{
    let cs = q + r;
    let n = q.len() as int;
    if i < r.len() {
        assert(cs[n + i] == r[i]);
        if i + 1 < r.len() {
            assert(cs[n + i + 1] == r[i + 1]);
        }
        assert(opens_bold(cs, n + i) == opens_bold(r, i));
        if opens_bold(r, i) {
            lemma_find_shift(q, r, '*', i + 2);
            lemma_find_double_star(r, i + 2);
            let (k, next) = bold_end(r, i);
            assert(cs.subrange(n + i + 2, n + k) =~= r.subrange(i + 2, k));
            lemma_scan_shift(q, r, next, seq![]);
        } else if r[i] == '*' {
            lemma_find_shift(q, r, '*', i + 1);
            lemma_find_char(r, '*', i + 1);
            let (k, next) = delimited_end(r, '*', i);
            assert(cs.subrange(n + i + 1, n + k) =~= r.subrange(i + 1, k));
            lemma_scan_shift(q, r, next, seq![]);
        } else if r[i] == '`' {
            lemma_find_shift(q, r, '`', i + 1);
            lemma_find_char(r, '`', i + 1);
            let (k, next) = delimited_end(r, '`', i);
            assert(cs.subrange(n + i + 1, n + k) =~= r.subrange(i + 1, k));
            lemma_scan_shift(q, r, next, seq![]);
        } else {
            lemma_scan_shift(q, r, i + 1, buf.push(r[i]));
        }
    }
}

/// Characters that are not markup are gathered as plain text.
proof fn lemma_scan_plain_run(cs: Seq<char>, i: int, j: int, buf: Seq<char>)
    requires
        0 <= i <= j <= cs.len(),
        forall|k: int| i <= k < j ==> !is_marker(#[trigger] cs[k]),
    ensures
        scan_inline(cs, i, buf) == scan_inline(cs, j, buf + cs.subrange(i, j)),
    decreases j - i,
{
    if i < j {
        assert(!is_marker(cs[i]));
        lemma_scan_plain_run(cs, i + 1, j, buf.push(cs[i]));
        assert(buf.push(cs[i]) + cs.subrange(i + 1, j) =~= buf + cs.subrange(i, j));
    } else {
        assert(buf + cs.subrange(i, j) =~= buf);
    }
}

/// The search for a closing mark skips text without it.
proof fn lemma_find_skip(cs: Seq<char>, c: char, j: int, k: int)
    requires
        0 <= j <= k <= cs.len(),
        forall|m: int| j <= m < k ==> #[trigger] cs[m] != c,
    ensures
        find_char(cs, c, j) == find_char(cs, c, k),
        c == '*' && (k == cs.len() || k + 1 < cs.len() && cs[k] == '*' && cs[k + 1] == '*')
            ==> find_double_star(cs, j) == find_double_star(cs, k),
    decreases k - j,
{
    if j < k {
        assert(cs[j] != c);
        lemma_find_skip(cs, c, j + 1, k);
    }
}

/// Inline markup, read from the left: plain text `p` (with no markup
/// characters) is one plain span; then `**t**` is `t` in bold, `*t*` is `t`
/// in italics and `` `t` `` is `t` as yellow code (`t` holding neither markup
/// character, and not empty for italics); what follows the closing mark is
/// read on its own. A bold span that is never closed runs to the end.
pub proof fn law_inline_markup(p: Seq<char>, t: Seq<char>, r: Seq<char>)
    requires
        forall|k: int| 0 <= k < p.len() ==> !is_marker(#[trigger] p[k]),
        forall|k: int| 0 <= k < t.len() ==> !is_marker(#[trigger] t[k]),
    ensures
        ({
            let lead: Seq<(Seq<char>, SpanStyle)> = if p.len() == 0 {
                seq![]
            } else {
                seq![(p, SpanStyle { fg: None, bold: false, italic: false })]
            };
            let rest = scan_inline(r, 0, seq![]);
            &&& inline_spans(p + seq!['*', '*'] + t + seq!['*', '*'] + r) == lead + seq![
                (t, SpanStyle { fg: None, bold: true, italic: false }),
            ] + rest
            &&& t.len() > 0 ==> inline_spans(p + seq!['*'] + t + seq!['*'] + r) == lead + seq![
                (t, SpanStyle { fg: None, bold: false, italic: true }),
            ] + rest
            &&& inline_spans(p + seq!['`'] + t + seq!['`'] + r) == lead + seq![
                (t, SpanStyle { fg: Some(Color::Yellow), bold: false, italic: false }),
            ] + rest
            &&& inline_spans(p + seq!['*', '*'] + t) == lead + seq![
                (t, SpanStyle { fg: None, bold: true, italic: false }),
            ]
        }),
{
    let n = p.len() as int;
    let m = t.len() as int;
    // **t** r
    let open2 = p + seq!['*', '*'] + t;
    let q2 = open2 + seq!['*', '*'];
    let cs = q2 + r;
    assert forall|k: int| 0 <= k < n implies !is_marker(#[trigger] cs[k]) by {
        assert(cs[k] == p[k]);
    }
    lemma_scan_plain_run(cs, 0, n, seq![]);
    assert(Seq::<char>::empty() + cs.subrange(0, n) =~= p);
    assert(opens_bold(cs, n));
    assert forall|k: int| n + 2 <= k < n + 2 + m implies #[trigger] cs[k] != '*' by {
        assert(cs[k] == t[k - n - 2]);
    }
    lemma_find_skip(cs, '*', n + 2, n + 2 + m);
    assert(find_double_star(cs, n + 2 + m) == n + 2 + m);
    assert(cs.subrange(n + 2, n + 2 + m) =~= t);
    lemma_scan_shift(q2, r, 0, seq![]);
    assert(q2.len() == n + 4 + m);
    assert(scan_inline(cs, n, p) == flush(p) + seq![
        (t, style_of(None, true, false)),
    ] + scan_inline(cs, n + 4 + m, seq![]));
    assert(scan_inline(cs, 0, seq![]).len() > 0);
    // *t* r
    let q1 = p + seq!['*'] + t + seq!['*'];
    let cs1 = q1 + r;
    assert forall|k: int| 0 <= k < n implies !is_marker(#[trigger] cs1[k]) by {
        assert(cs1[k] == p[k]);
    }
    lemma_scan_plain_run(cs1, 0, n, seq![]);
    assert(Seq::<char>::empty() + cs1.subrange(0, n) =~= p);
    if m > 0 {
        assert(cs1[n + 1] == t[0]);
        assert(!opens_bold(cs1, n));
        assert forall|k: int| n + 1 <= k < n + 1 + m implies #[trigger] cs1[k] != '*' by {
            assert(cs1[k] == t[k - n - 1]);
        }
        lemma_find_skip(cs1, '*', n + 1, n + 1 + m);
        assert(cs1.subrange(n + 1, n + 1 + m) =~= t);
        lemma_scan_shift(q1, r, 0, seq![]);
        assert(scan_inline(cs1, n, p) == flush(p) + seq![
            (t, style_of(None, false, true)),
        ] + scan_inline(cs1, n + 2 + m, seq![]));
    }
    // `t` r
    let qc = p + seq!['`'] + t + seq!['`'];
    let csc = qc + r;
    assert forall|k: int| 0 <= k < n implies !is_marker(#[trigger] csc[k]) by {
        assert(csc[k] == p[k]);
    }
    lemma_scan_plain_run(csc, 0, n, seq![]);
    assert(Seq::<char>::empty() + csc.subrange(0, n) =~= p);
    assert forall|k: int| n + 1 <= k < n + 1 + m implies #[trigger] csc[k] != '`' by {
        assert(csc[k] == t[k - n - 1]);
    }
    lemma_find_skip(csc, '`', n + 1, n + 1 + m);
    assert(csc.subrange(n + 1, n + 1 + m) =~= t);
    lemma_scan_shift(qc, r, 0, seq![]);
    assert(scan_inline(csc, n, p) == flush(p) + seq![
        (t, style_of(Some(Color::Yellow), false, false)),
    ] + scan_inline(csc, n + 2 + m, seq![]));
    // **t, never closed
    assert forall|k: int| 0 <= k < n implies !is_marker(#[trigger] open2[k]) by {
        assert(open2[k] == p[k]);
    }
    lemma_scan_plain_run(open2, 0, n, seq![]);
    assert(Seq::<char>::empty() + open2.subrange(0, n) =~= p);
    assert(opens_bold(open2, n));
    assert forall|k: int| n + 2 <= k < n + 2 + m implies #[trigger] open2[k] != '*' by {
        assert(open2[k] == t[k - n - 2]);
    }
    lemma_find_skip(open2, '*', n + 2, n + 2 + m);
    assert(open2.subrange(n + 2, n + 2 + m) =~= t);
    assert(scan_inline(open2, n + 2 + m, seq![]) == flush(Seq::<char>::empty()));
}

} // verus!



