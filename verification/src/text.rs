use vstd::prelude::*;

verus! {

broadcast use vstd::string::group_string_axioms;

/// `String::push` appends one character.
pub assume_specification[ String::push ](s: &mut String, ch: char)
    ensures
        final(s)@ == old(s)@.push(ch),
;

/// `String::pop` removes the last character and returns it, or returns
/// `None` and leaves an empty string as it is.
pub assume_specification[ String::pop ](s: &mut String) -> (r: Option<char>)
    ensures
        old(s)@.len() == 0 ==> r is None && final(s)@ == old(s)@,
        old(s)@.len() > 0 ==> r == Some(old(s)@.last()) && final(s)@ == old(s)@.drop_last(),
;

/// Unicode's White_Space property, which `char::is_whitespace` tests.
pub open spec fn is_space(c: char) -> bool {
    let u = c as u32;
    ||| 0x09 <= u <= 0x0d
    ||| u == 0x20
    ||| u == 0x85
    ||| u == 0xa0
    ||| u == 0x1680
    ||| 0x2000 <= u <= 0x200a
    ||| u == 0x2028
    ||| u == 0x2029
    ||| u == 0x202f
    ||| u == 0x205f
    ||| u == 0x3000
}

/// Whether `c` is a white-space character.
pub fn is_whitespace(c: char) -> (b: bool)
    ensures
        b == is_space(c),
{
    let u = c as u32;
    (0x09 <= u && u <= 0x0d) || u == 0x20 || u == 0x85 || u == 0xa0 || u == 0x1680 || (0x2000
        <= u && u <= 0x200a) || u == 0x2028 || u == 0x2029 || u == 0x202f || u == 0x205f || u
        == 0x3000
}

/// The number of white-space characters at the start of `s`.
pub open spec fn leading_spaces(s: Seq<char>) -> nat
    decreases s.len(),
{
    if s.len() > 0 && is_space(s[0]) {
        1 + leading_spaces(s.drop_first())
    } else {
        0
    }
}

/// The number of white-space characters at the end of `s`.
pub open spec fn trailing_spaces(s: Seq<char>) -> nat
    decreases s.len(),
{
    if s.len() > 0 && is_space(s.last()) {
        1 + trailing_spaces(s.drop_last())
    } else {
        0
    }
}

/// `s` without its leading white space.
pub open spec fn trim_start(s: Seq<char>) -> Seq<char> {
    s.skip(leading_spaces(s) as int)
}

/// `s` without its trailing white space.
pub open spec fn trim_end(s: Seq<char>) -> Seq<char> {
    s.take(s.len() - trailing_spaces(s))
}

/// `s` without its leading and trailing white space.
pub open spec fn trim(s: Seq<char>) -> Seq<char> {
    trim_end(trim_start(s))
}

pub proof fn lemma_leading_spaces_bound(s: Seq<char>)
    ensures
        leading_spaces(s) <= s.len(),
        forall|k: int| 0 <= k < leading_spaces(s) ==> is_space(#[trigger] s[k]),
        leading_spaces(s) < s.len() ==> !is_space(s[leading_spaces(s) as int]),
    decreases s.len(),
{
    if s.len() > 0 && is_space(s[0]) {
        lemma_leading_spaces_bound(s.drop_first());
        assert forall|k: int| 0 <= k < leading_spaces(s) implies is_space(#[trigger] s[k]) by {
            if k > 0 {
                assert(s[k] == s.drop_first()[k - 1]);
            }
        }
    }
}

pub proof fn lemma_trailing_spaces_bound(s: Seq<char>)
    ensures
        trailing_spaces(s) <= s.len(),
        forall|k: int|
            s.len() - trailing_spaces(s) <= k < s.len() ==> is_space(#[trigger] s[k]),
        trailing_spaces(s) < s.len() ==> !is_space(s[s.len() - trailing_spaces(s) - 1]),
    decreases s.len(),
{
    if s.len() > 0 && is_space(s.last()) {
        lemma_trailing_spaces_bound(s.drop_last());
        assert forall|k: int|
            s.len() - trailing_spaces(s) <= k < s.len() implies is_space(#[trigger] s[k]) by {
            if k < s.len() - 1 {
                assert(s[k] == s.drop_last()[k]);
            }
        }
    }
}

/// Counting leading white space from position `i` on.
proof fn lemma_leading_spaces_from(s: Seq<char>, i: int)
    requires
        0 <= i <= s.len(),
        forall|k: int| 0 <= k < i ==> is_space(#[trigger] s[k]),
    ensures
        leading_spaces(s) == i + leading_spaces(s.skip(i)),
    decreases i,
{
    if i > 0 {
        assert(is_space(s[0]));
        lemma_leading_spaces_from(s.drop_first(), i - 1);
        assert(s.drop_first().skip(i - 1) =~= s.skip(i));
    } else {
        assert(s.skip(0) =~= s);
    }
}

/// Counting trailing white space from position `j` back.
proof fn lemma_trailing_spaces_from(s: Seq<char>, j: int)
    requires
        0 <= j <= s.len(),
        forall|k: int| j <= k < s.len() ==> is_space(#[trigger] s[k]),
    ensures
        trailing_spaces(s) == (s.len() - j) + trailing_spaces(s.take(j)),
    decreases s.len() - j,
{
    if j < s.len() {
        assert(is_space(s.last()));
        lemma_trailing_spaces_from(s.drop_last(), j);
        assert(s.drop_last().take(j) =~= s.take(j));
    } else {
        assert(s.take(j) =~= s);
    }
}

/// The characters of a string, in order.
pub fn chars_of(s: &str) -> (cs: Vec<char>)
    ensures
        cs@ == s@,
{
    let mut cs: Vec<char> = Vec::new();
    for c in it: s.chars()
        invariant
            it.seq() == s@,
            cs@ == s@.take(it.index()),
    {
        cs.push(c);
        assert(s@.take(it.index() + 1) =~= s@.take(it.index()).push(c));
    }
    assert(cs@ =~= s@);
    cs
}

/// The string made of `cs[from..to]`.
pub fn string_of(cs: &Vec<char>, from: usize, to: usize) -> (s: String)
    requires
        from <= to <= cs.len(),
    ensures
        s@ == cs@.subrange(from as int, to as int),
{
    let mut s = String::new();
    let mut i = from;
    while i < to
        invariant
            from <= i <= to <= cs.len(),
            s@ == cs@.subrange(from as int, i as int),
        decreases to - i,
    {
        s.push(cs[i]);
        i = i + 1;
        assert(s@ =~= cs@.subrange(from as int, i as int));
    }
    s
}

/// The number of white-space characters at the start of `cs`.
pub fn count_leading_spaces(cs: &Vec<char>) -> (n: usize)
    ensures
        n == leading_spaces(cs@),
{
    let mut i: usize = 0;
    while i < cs.len() && is_whitespace(cs[i])
        invariant
            i <= cs.len(),
            forall|k: int| 0 <= k < i ==> is_space(#[trigger] cs@[k]),
        decreases cs.len() - i,
    {
        i = i + 1;
    }
    proof {
        lemma_leading_spaces_from(cs@, i as int);
        if i < cs.len() {
            assert(cs@.skip(i as int)[0] == cs@[i as int]);
        } else {
            assert(cs@.skip(i as int).len() == 0);
        }
    }
    i
}

/// The number of white-space characters at the end of `cs`.
pub fn count_trailing_spaces(cs: &Vec<char>) -> (n: usize)
    ensures
        n == trailing_spaces(cs@),
{
    let mut j: usize = cs.len();
    while j > 0 && is_whitespace(cs[j - 1])
        invariant
            j <= cs.len(),
            forall|k: int| j <= k < cs.len() ==> is_space(#[trigger] cs@[k]),
        decreases j,
    {
        j = j - 1;
    }
    proof {
        lemma_trailing_spaces_from(cs@, j as int);
        if j > 0 {
            assert(cs@.take(j as int).last() == cs@[j - 1]);
        }
    }
    cs.len() - j
}

/// `s` without its leading and trailing white space, as `str::trim` gives it.
pub fn trim_string(s: &str) -> (t: String)
    ensures
        t@ == trim(s@),
{
    let cs = chars_of(s);
    let lead = count_leading_spaces(&cs);
    proof {
        lemma_leading_spaces_bound(cs@);
    }
    let mut rest: Vec<char> = Vec::new();
    let mut i = lead;
    while i < cs.len()
        invariant
            lead <= i <= cs.len(),
            rest@ == cs@.subrange(lead as int, i as int),
        decreases cs.len() - i,
    {
        rest.push(cs[i]);
        i = i + 1;
        assert(rest@ =~= cs@.subrange(lead as int, i as int));
    }
    assert(rest@ =~= trim_start(cs@));
    let trail = count_trailing_spaces(&rest);
    proof {
        lemma_trailing_spaces_bound(rest@);
    }
    let t = string_of(&rest, 0, rest.len() - trail);
    assert(t@ =~= trim(s@));
    t
}

/// Whether `s` is empty or white space alone.
pub open spec fn is_blank(s: Seq<char>) -> bool {
    forall|k: int| 0 <= k < s.len() ==> is_space(#[trigger] s[k])
}

/// A text trims to nothing exactly when it is blank.
pub proof fn law_trim_empty_iff_blank(s: Seq<char>)
    ensures
        trim(s).len() == 0 <==> is_blank(s),
{
    lemma_leading_spaces_bound(s);
    let t = trim_start(s);
    lemma_trailing_spaces_bound(t);
    if trim(s).len() == 0 {
        assert forall|k: int| 0 <= k < s.len() implies is_space(#[trigger] s[k]) by {
            if k >= leading_spaces(s) {
                assert(s[k] == t[k - leading_spaces(s)]);
            }
        }
    }
    if is_blank(s) {
        if leading_spaces(s) < s.len() {
            assert(is_space(s[leading_spaces(s) as int]));
        }
    }
}


/// Whether `s` begins with `p`.
pub open spec fn has_prefix(s: Seq<char>, p: Seq<char>) -> bool {
    p.len() <= s.len() && s.take(p.len() as int) == p
}

/// Whether `cs[start..]` begins with `p`.
pub fn starts_with_at(cs: &Vec<char>, start: usize, p: &Vec<char>) -> (b: bool)
    requires
        start <= cs.len(),
    ensures
        b == has_prefix(cs@.skip(start as int), p@),
{
    if p.len() > cs.len() - start {
        return false;
    }
    let mut k: usize = 0;
    while k < p.len()
        invariant
            start + p.len() <= cs.len(),
            k <= p.len(),
            forall|m: int| 0 <= m < k ==> cs@[start + m] == p@[m],
        decreases p.len() - k,
    {
        if cs[start + k] != p[k] {
            assert(cs@.skip(start as int).take(p.len() as int)[k as int] != p@[k as int]);
            return false;
        }
        k = k + 1;
    }
    assert(cs@.skip(start as int).take(p.len() as int) =~= p@);
    true
}

/// A line as `str::lines` hands it out: a final carriage return is dropped.
pub open spec fn strip_cr(l: Seq<char>) -> Seq<char> {
    if l.len() > 0 && l.last() == '\r' {
        l.drop_last()
    } else {
        l
    }
}

/// The lines that a scan of `s` has finished, and the line it is in.
pub open spec fn scan_lines(s: Seq<char>) -> (Seq<Seq<char>>, Seq<char>)
    decreases s.len(),
{
    if s.len() == 0 {
        (seq![], seq![])
    } else {
        let (done, cur) = scan_lines(s.drop_last());
        if s.last() == '\n' {
            (done.push(strip_cr(cur)), seq![])
        } else {
            (done, cur.push(s.last()))
        }
    }
}

/// The lines of `s`, as `str::lines` yields them: split at each line feed,
/// a carriage return before it dropped, and no empty line after a final
/// line feed.
pub open spec fn lines(s: Seq<char>) -> Seq<Seq<char>> {
    let (done, cur) = scan_lines(s);
    if cur.len() == 0 {
        done
    } else {
        done.push(cur)
    }
}

/// The line a scan of `s` is in is empty exactly when `s` is empty or ends
/// with a line feed, and otherwise ends as `s` does.
pub proof fn lemma_scan_lines_current(s: Seq<char>)
    ensures
        (scan_lines(s).1.len() == 0) <==> (s.len() == 0 || s.last() == '\n'),
        scan_lines(s).1.len() > 0 ==> scan_lines(s).1.last() == s.last(),
    decreases s.len(),
{
    if s.len() > 0 {
        lemma_scan_lines_current(s.drop_last());
    }
}

/// Scanning on after a finished line: the lines of `q` follow those of `p`.
pub proof fn lemma_scan_lines_append(p: Seq<char>, q: Seq<char>)
    requires
        scan_lines(p).1.len() == 0,
    ensures
        scan_lines(p + q) == (scan_lines(p).0 + scan_lines(q).0, scan_lines(q).1),
    decreases q.len(),
{
    if q.len() == 0 {
        assert(p + q =~= p);
        assert(scan_lines(p).0 + scan_lines(q).0 =~= scan_lines(p).0);
    } else {
        lemma_scan_lines_append(p, q.drop_last());
        assert((p + q).drop_last() =~= p + q.drop_last());
        assert((p + q).last() == q.last());
        let (d, c) = scan_lines(q.drop_last());
        if q.last() == '\n' {
            assert((scan_lines(p).0 + d).push(strip_cr(c)) =~= scan_lines(p).0 + d.push(
                strip_cr(c),
            ));
        }
    }
}

/// The lines of two texts joined by a line feed are the lines of the first
/// and then those of the second, when the first is not empty and ends with
/// neither a line feed nor a carriage return.
pub proof fn law_lines_joined(a: Seq<char>, b: Seq<char>)
    requires
        a.len() > 0,
        a.last() != '\n',
        a.last() != '\r',
    ensures
        lines(a + seq!['\n'] + b) == lines(a) + lines(b),
{
    let p = a + seq!['\n'];
    assert(p.drop_last() =~= a);
    lemma_scan_lines_current(a);
    let (d, cur) = scan_lines(a);
    assert(strip_cr(cur) == cur);
    assert(scan_lines(p) == (d.push(cur), Seq::<char>::empty()));
    lemma_scan_lines_append(p, b);
    let (db, cb) = scan_lines(b);
    if cb.len() > 0 {
        assert((d.push(cur) + db).push(cb) =~= d.push(cur) + db.push(cb));
    }
}

/// The lines of `cs`.
pub fn split_lines(cs: &Vec<char>) -> (ls: Vec<Vec<char>>)
    ensures
        ls.deep_view() == lines(cs@),
{
    let mut done: Vec<Vec<char>> = Vec::new();
    let mut cur: Vec<char> = Vec::new();
    let mut i: usize = 0;
    while i < cs.len()
        invariant
            i <= cs.len(),
            (done.deep_view(), cur@) == scan_lines(cs@.take(i as int)),
        decreases cs.len() - i,
    {
        let c = cs[i];
        assert(cs@.take(i + 1).drop_last() =~= cs@.take(i as int));
        assert(cs@.take(i + 1).last() == c);
        let ghost old_done = done.deep_view();
        let ghost old_cur = cur@;
        if c == '\n' {
            if cur.len() > 0 && cur[cur.len() - 1] == '\r' {
                cur.pop();
            }
            assert(cur@ == strip_cr(old_cur));
            assert(cur.deep_view() =~= cur@);
            let line = cur;
            done.push(line);
            cur = Vec::new();
            assert(done.deep_view() =~= old_done.push(strip_cr(old_cur)));
        } else {
            cur.push(c);
        }
        i = i + 1;
    }
    assert(cs@.take(i as int) =~= cs@);
    let ghost old_done = done.deep_view();
    if cur.len() > 0 {
        let ghost last = cur@;
        assert(cur.deep_view() =~= cur@);
        done.push(cur);
        assert(done.deep_view() =~= old_done.push(last));
    }
    done
}

/// The lines `ls` joined by line feeds.
pub open spec fn join_lines(ls: Seq<Seq<char>>) -> Seq<char>
    decreases ls.len(),
{
    if ls.len() == 0 {
        seq![]
    } else if ls.len() == 1 {
        ls[0]
    } else {
        join_lines(ls.drop_last()) + seq!['\n'] + ls.last()
    }
}

/// The lines `ls` joined by line feeds, as `join("\n")` gives them.
pub fn join_with_newlines(ls: &Vec<String>) -> (s: String)
    ensures
        s@ == join_lines(ls.deep_view()),
{
    let mut s = String::new();
    let mut i: usize = 0;
    while i < ls.len()
        invariant
            i <= ls.len(),
            s@ == join_lines(ls.deep_view().take(i as int)),
        decreases ls.len() - i,
    {
        let ghost before = s@;
        if i > 0 {
            s.push('\n');
        }
        let line = chars_of(ls[i].as_str());
        let mut k: usize = 0;
        while k < line.len()
            invariant
                k <= line.len(),
                i > 0 ==> s@ == before + seq!['\n'] + line@.take(k as int),
                i == 0 ==> s@ == before + line@.take(k as int),
            decreases line.len() - k,
        {
            s.push(line[k]);
            k = k + 1;
            assert(line@.take(k as int) =~= line@.take(k - 1).push(line@[k - 1]));
        }
        assert(line@.take(k as int) =~= line@);
        assert(ls.deep_view().take(i + 1).drop_last() =~= ls.deep_view().take(i as int));
        assert(ls.deep_view().take(i + 1).last() == ls@[i as int]@);
        i = i + 1;
        assert(s@ =~= join_lines(ls.deep_view().take(i as int)));
    }
    assert(ls.deep_view().take(i as int) =~= ls.deep_view());
    s
}

} // verus!
