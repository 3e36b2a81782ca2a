//! Characters, strings and lines: the text primitives the other modules
//! build on, each stated over `Seq<char>`.

use vstd::prelude::*;

verus! {

/// `String::push` appends one character to the end of the string. Assumed,
/// not proved: the standard library's code is not verified here.
pub assume_specification[ String::push ](s: &mut String, c: char)
    ensures
        final(s)@ == old(s)@.push(c),
;

/// Index of the first element of `s` that satisfies `p`; `s.len()` when none
/// does.
pub open spec fn first_where<A>(s: Seq<A>, p: spec_fn(A) -> bool) -> nat
    decreases s.len(),
{
    if s.len() == 0 || p(s[0]) {
        0
    } else {
        1 + first_where(s.drop_first(), p)
    }
}

/// `first_where` lies within `s`, nothing before it satisfies `p`, and the
/// element at it does, when there is one.
pub proof fn lemma_first_where<A>(s: Seq<A>, p: spec_fn(A) -> bool)
    ensures
        first_where(s, p) <= s.len(),
        forall|j: int| 0 <= j < first_where(s, p) ==> !p(#[trigger] s[j]),
        first_where(s, p) < s.len() ==> p(s[first_where(s, p) as int]),
    decreases s.len(),
{
    if s.len() == 0 || p(s[0]) {
    } else {
        let t = s.drop_first();
        lemma_first_where(t, p);
        assert forall|j: int| 0 <= j < first_where(s, p) implies !p(#[trigger] s[j]) by {
            if j > 0 {
                assert(s[j] == t[j - 1]);
            }
        }
        if first_where(s, p) < s.len() {
            assert(s[first_where(s, p) as int] == t[first_where(t, p) as int]);
        }
    }
}

/// An index with nothing satisfying `p` before it, and an element satisfying
/// `p` at it unless it is `s.len()`, is `first_where`.
pub proof fn lemma_first_where_is<A>(s: Seq<A>, p: spec_fn(A) -> bool, k: int)
    requires
        0 <= k <= s.len(),
        forall|j: int| 0 <= j < k ==> !p(#[trigger] s[j]),
        k < s.len() ==> p(s[k]),
    ensures
        first_where(s, p) == k,
{
    lemma_first_where(s, p);
    let f = first_where(s, p) as int;
    if f < k {
        assert(!p(s[f]));
    } else if f > k {
        assert(!p(s[k]));
    }
}

/// The code points with the Unicode `White_Space` property.
pub open spec fn is_white_space(c: char) -> bool {
    let u = c as u32;
    ||| 0x09 <= u <= 0x0D
    ||| u == 0x20
    ||| u == 0x85
    ||| u == 0xA0
    ||| u == 0x1680
    ||| 0x2000 <= u <= 0x200A
    ||| u == 0x2028
    ||| u == 0x2029
    ||| u == 0x202F
    ||| u == 0x205F
    ||| u == 0x3000
}

/// The test "is not white space", as a value.
pub open spec fn non_space() -> spec_fn(char) -> bool {
    |c: char| !is_white_space(c)
}

/// The test "is a line feed", as a value.
pub open spec fn line_feed() -> spec_fn(char) -> bool {
    |c: char| c == '\n'
}

/// Every character of `s` is white space; true of the empty string.
pub open spec fn all_white_space(s: Seq<char>) -> bool {
    forall|i: int| 0 <= i < s.len() ==> is_white_space(#[trigger] s[i])
}

/// `s` without its leading white space.
pub open spec fn trim_start(s: Seq<char>) -> Seq<char> {
    s.skip(first_where(s, non_space()) as int)
}

/// `s` without one trailing carriage return, if it has one.
pub open spec fn strip_cr(s: Seq<char>) -> Seq<char> {
    if s.len() > 0 && s.last() == '\r' {
        s.drop_last()
    } else {
        s
    }
}

/// The lines of `s`. A line ends at a line feed, or at the end of `s`; the
/// line feed, and a carriage return directly before it, are not part of the
/// line. Text after the last line feed is a line of its own unless it is
/// empty.
pub open spec fn lines_of(s: Seq<char>) -> Seq<Seq<char>>
    decreases s.len(),
{
    if s.len() == 0 {
        Seq::empty()
    } else {
        let n = first_where(s, line_feed()) as int;
        if n >= s.len() {
            seq![s]
        } else {
            seq![strip_cr(s.take(n))] + lines_of(s.skip(n + 1))
        }
    }
}

/// Where the `p`-th line of `s` begins; `s.len()` where `s` has no such
/// line.
pub open spec fn line_start(s: Seq<char>, p: nat) -> nat
    decreases p,
{
    if p == 0 {
        0
    } else {
        let n = first_where(s, line_feed());
        if n >= s.len() {
            s.len()
        } else {
            n + 1 + line_start(s.skip(n as int + 1), (p - 1) as nat)
        }
    }
}

/// `s` with its `p`-th line replaced by `e`. What ends the line, and all
/// the text before and after, stay as they are.
pub open spec fn with_line(s: Seq<char>, p: nat, e: Seq<char>) -> Seq<char> {
    s.take(line_start(s, p) as int) + e + s.skip(
        line_start(s, p) as int + lines_of(s)[p as int].len(),
    )
}

/// The stretches of `s` that `spans` marks, each from its first index up to
/// its second.
pub open spec fn span_texts(s: Seq<char>, spans: Seq<(usize, usize)>) -> Seq<Seq<char>> {
    Seq::new(spans.len(), |k: int| s.subrange(spans[k].0 as int, spans[k].1 as int))
}

/// No character of `s` is a line feed.
pub open spec fn no_line_feed(s: Seq<char>) -> bool {
    forall|i: int| 0 <= i < s.len() ==> #[trigger] s[i] != '\n'
}

/// The last character of `s` is a carriage return.
pub open spec fn ends_with_cr(s: Seq<char>) -> bool {
    s.len() > 0 && s.last() == '\r'
}

/// A text that begins with `a` and a line feed has `a`, without a trailing
/// carriage return, as its first line; the other lines are those of the rest.
pub proof fn lemma_lines_of_first_line(a: Seq<char>, rest: Seq<char>)
    requires
        no_line_feed(a),
    ensures
        lines_of(a + seq!['\n'] + rest) == seq![strip_cr(a)] + lines_of(rest),
{
    let s = a + seq!['\n'] + rest;
    let n = a.len() as int;
    assert forall|j: int| 0 <= j < n implies !line_feed()(#[trigger] s[j]) by {
        assert(s[j] == a[j]);
    }
    assert(s[n] == '\n');
    lemma_first_where_is(s, line_feed(), n);
    assert(s.take(n) =~= a);
    assert(s.skip(n + 1) =~= rest);
}

/// A text without a line feed, unless it is empty, is one line.
pub proof fn lemma_lines_of_last_line(a: Seq<char>)
    requires
        a.len() > 0,
        no_line_feed(a),
    ensures
        lines_of(a) == seq![a],
{
    assert forall|j: int| 0 <= j < a.len() implies !line_feed()(#[trigger] a[j]) by {}
    lemma_first_where_is(a, line_feed(), a.len() as int);
}

/// A text that holds a line feed splits there: what is before the first one,
/// the line feed, and the rest.
pub proof fn lemma_split_at_line_feed(s: Seq<char>)
    requires
        first_where(s, line_feed()) < s.len(),
    ensures
        no_line_feed(s.take(first_where(s, line_feed()) as int)),
        s == s.take(first_where(s, line_feed()) as int) + seq!['\n'] + s.skip(
            first_where(s, line_feed()) as int + 1,
        ),
{
    lemma_first_where(s, line_feed());
    let n = first_where(s, line_feed()) as int;
    assert forall|i: int| 0 <= i < n implies #[trigger] s.take(n)[i] != '\n' by {
        assert(!line_feed()(s[i]));
    }
    assert(s =~= s.take(n) + seq!['\n'] + s.skip(n + 1));
}

/// No line holds a line feed.
pub proof fn lemma_lines_hold_no_line_feed(s: Seq<char>)
    ensures
        forall|i: int| 0 <= i < lines_of(s).len() ==> no_line_feed(#[trigger] lines_of(s)[i]),
    decreases s.len(),
{
    if s.len() > 0 {
        lemma_first_where(s, line_feed());
        let n = first_where(s, line_feed()) as int;
        if n < s.len() {
            lemma_split_at_line_feed(s);
            lemma_lines_hold_no_line_feed(s.skip(n + 1));
            let rest = lines_of(s.skip(n + 1));
            assert forall|i: int| 0 <= i < lines_of(s).len() implies no_line_feed(
                #[trigger] lines_of(s)[i],
            ) by {
                if i > 0 {
                    assert(lines_of(s)[i] == rest[i - 1]);
                }
            }
        } else {
            assert forall|i: int| 0 <= i < s.len() implies #[trigger] s[i] != '\n' by {
                assert(!line_feed()(s[i]));
            }
        }
    }
}

/// The lines of a text that is empty or ends with a line feed, followed by
/// more text, are the lines of the one and then the lines of the other.
pub proof fn lemma_lines_of_concat(t: Seq<char>, u: Seq<char>)
    requires
        t.len() == 0 || t.last() == '\n',
    ensures
        lines_of(t + u) == lines_of(t) + lines_of(u),
    decreases t.len(),
{
    if t.len() == 0 {
        assert(t + u =~= u);
        assert(lines_of(t) + lines_of(u) =~= lines_of(u));
    } else {
        lemma_first_where(t, line_feed());
        let n = first_where(t, line_feed()) as int;
        if n >= t.len() {
            assert(!line_feed()(t[t.len() - 1]));
        }
        lemma_split_at_line_feed(t);
        let a = t.take(n);
        let rest = t.skip(n + 1);
        if rest.len() > 0 {
            assert(rest.last() == t.last());
        }
        assert(t + u =~= a + seq!['\n'] + (rest + u));
        lemma_lines_of_first_line(a, rest);
        lemma_lines_of_first_line(a, rest + u);
        lemma_lines_of_concat(rest, u);
        assert(seq![strip_cr(a)] + (lines_of(rest) + lines_of(u)) =~= (seq![strip_cr(a)]
            + lines_of(rest)) + lines_of(u));
    }
}

/// A line feed added to a text that does not end with one closes its last
/// line: that line loses a trailing carriage return, the others stay.
pub proof fn lemma_lines_of_closed_text(t: Seq<char>)
    requires
        t.len() > 0,
        t.last() != '\n',
    ensures
        lines_of(t).len() > 0,
        lines_of(t).last().len() > 0,
        lines_of(t).last().last() == t.last(),
        lines_of(t.push('\n')) == lines_of(t).drop_last().push(strip_cr(lines_of(t).last())),
    decreases t.len(),
{
    lemma_first_where(t, line_feed());
    let n = first_where(t, line_feed()) as int;
    if n >= t.len() {
        assert forall|i: int| 0 <= i < t.len() implies #[trigger] t[i] != '\n' by {
            assert(!line_feed()(t[i]));
        }
        lemma_lines_of_last_line(t);
        assert(t.push('\n') =~= t + seq!['\n'] + Seq::<char>::empty());
        lemma_lines_of_first_line(t, Seq::empty());
        assert(lines_of(t.push('\n')) =~= seq![t].drop_last().push(strip_cr(t)));
    } else {
        lemma_split_at_line_feed(t);
        let a = t.take(n);
        let rest = t.skip(n + 1);
        assert(rest.len() > 0);
        assert(rest.last() == t.last());
        assert(t.push('\n') =~= a + seq!['\n'] + rest.push('\n'));
        lemma_lines_of_first_line(a, rest);
        lemma_lines_of_first_line(a, rest.push('\n'));
        lemma_lines_of_closed_text(rest);
        let l = lines_of(rest);
        let first = seq![strip_cr(a)];
        assert((first + l).drop_last().push(strip_cr((first + l).last())) =~= first
            + l.drop_last().push(strip_cr(l.last())));
    }
}

/// The line after the `k`-th begins behind the line feed that ends the
/// `k`-th.
pub proof fn lemma_next_line_start(s: Seq<char>, k: nat, i: int)
    requires
        line_start(s, k) <= i < s.len(),
        forall|j: int| line_start(s, k) <= j < i ==> #[trigger] s[j] != '\n',
        s[i] == '\n',
    ensures
        line_start(s, k + 1) == i + 1,
    decreases k,
{
    lemma_first_where(s, line_feed());
    let n = first_where(s, line_feed()) as int;
    if n > i {
        assert(!line_feed()(s[i]));
    }
    let tail = s.skip(n + 1);
    if k == 0 {
        if n < i {
            assert(line_feed()(s[n]));
        }
        assert(line_start(tail, 0) == 0);
    } else {
        let j = i - n - 1;
        assert(line_start(s, k) == n + 1 + line_start(tail, (k - 1) as nat));
        assert forall|m: int| line_start(tail, (k - 1) as nat) <= m < j implies #[trigger] tail[m]
            != '\n' by {
            assert(tail[m] == s[m + n + 1]);
        }
        lemma_next_line_start(tail, (k - 1) as nat, j);
    }
}

/// The `p`-th line stands in the text where it begins, and begins at the
/// start of the text or behind a line feed.
pub proof fn lemma_line_span(s: Seq<char>, p: nat)
    requires
        p < lines_of(s).len(),
    ensures
        line_start(s, p) + lines_of(s)[p as int].len() <= s.len(),
        s.subrange(
            line_start(s, p) as int,
            line_start(s, p) as int + lines_of(s)[p as int].len(),
        ) == lines_of(s)[p as int],
        line_start(s, p) == 0 || s[line_start(s, p) - 1] == '\n',
    decreases p,
{
    lemma_first_where(s, line_feed());
    let n = first_where(s, line_feed()) as int;
    if p == 0 {
        let l = lines_of(s)[0];
        assert(s.subrange(0, l.len() as int) =~= l);
    } else {
        lemma_split_at_line_feed(s);
        let tail = s.skip(n + 1);
        let q = (p - 1) as nat;
        assert(lines_of(s)[p as int] == lines_of(tail)[q as int]);
        lemma_line_span(tail, q);
        let from = line_start(tail, q) as int;
        let to = from + lines_of(tail)[q as int].len();
        assert(s.subrange(n + 1 + from, n + 1 + to) =~= tail.subrange(from, to));
        if from > 0 {
            assert(tail[from - 1] == s[n + from]);
        }
    }
}

/// A text with one line replaced by a line that is not empty, holds no line
/// feed and does not end with a carriage return has that line in its place
/// and every other line as it was; and the line begins where it began.
pub proof fn lemma_with_line(s: Seq<char>, p: nat, e: Seq<char>)
    requires
        p < lines_of(s).len(),
        e.len() > 0,
        no_line_feed(e),
        !ends_with_cr(e),
    ensures
        lines_of(with_line(s, p, e)) == lines_of(s).update(p as int, e),
        line_start(with_line(s, p, e), p) == line_start(s, p),
    decreases p,
{
    lemma_first_where(s, line_feed());
    lemma_line_span(s, p);
    let n = first_where(s, line_feed()) as int;
    let r = with_line(s, p, e);
    if p == 0 {
        if n >= s.len() {
            assert(r =~= e);
            lemma_lines_of_last_line(e);
            assert(lines_of(s).update(0, e) =~= seq![e]);
        } else {
            lemma_split_at_line_feed(s);
            let raw = s.take(n);
            let tail = s.skip(n + 1);
            if ends_with_cr(raw) {
                let a = e.push('\r');
                assert(r =~= a + seq!['\n'] + tail);
                lemma_lines_of_first_line(a, tail);
                assert(strip_cr(a) =~= e);
            } else {
                assert(r =~= e + seq!['\n'] + tail);
                lemma_lines_of_first_line(e, tail);
            }
            assert(lines_of(s).update(0, e) =~= seq![e] + lines_of(tail));
        }
    } else {
        lemma_split_at_line_feed(s);
        let a = s.take(n);
        let tail = s.skip(n + 1);
        let q = (p - 1) as nat;
        assert(lines_of(s)[p as int] == lines_of(tail)[q as int]);
        lemma_line_span(tail, q);
        lemma_with_line(tail, q, e);
        let rt = with_line(tail, q, e);
        let from = line_start(tail, q) as int;
        let to = from + lines_of(tail)[q as int].len();
        assert(s.take(n + 1 + from) =~= a + seq!['\n'] + tail.take(from));
        assert(s.skip(n + 1 + to) =~= tail.skip(to));
        assert(r =~= a + seq!['\n'] + rt);
        lemma_lines_of_first_line(a, rt);
        assert(lines_of(s).update(p as int, e) =~= seq![strip_cr(a)] + lines_of(tail).update(
            q as int,
            e,
        ));
        assert forall|j: int| 0 <= j < n implies !line_feed()(#[trigger] r[j]) by {
            assert(r[j] == a[j]);
        }
        assert(r[n] == '\n');
        lemma_first_where_is(r, line_feed(), n);
        assert(r.skip(n + 1) =~= rt);
    }
}

/// A stretch of `text` that begins where its `k`-th line begins, ends before
/// a line feed, and holds neither a line feed nor a carriage return at its
/// end, is the `k`-th line of `text`; and the text up to that line feed has
/// one line more than the text before the stretch.
pub proof fn lemma_line_from_span(text: Seq<char>, k: nat, from: int, to: int)
    requires
        0 <= from <= to < text.len(),
        from == 0 || text[from - 1] == '\n',
        lines_of(text.take(from)).len() == k,
        text[to] == '\n',
        no_line_feed(text.subrange(from, to)),
        !ends_with_cr(text.subrange(from, to)),
    ensures
        k < lines_of(text).len(),
        lines_of(text)[k as int] == text.subrange(from, to),
        lines_of(text.take(to + 1)).len() == k + 1,
{
    let pre = text.take(from);
    let line = text.subrange(from, to);
    let post = text.skip(to + 1);
    let none = Seq::<char>::empty();
    assert(text =~= pre + (line + seq!['\n'] + post));
    lemma_lines_of_concat(pre, line + seq!['\n'] + post);
    lemma_lines_of_first_line(line, post);
    assert(text.take(to + 1) =~= pre + (line + seq!['\n'] + none));
    lemma_lines_of_concat(pre, line + seq!['\n'] + none);
    lemma_lines_of_first_line(line, none);
}

/// What a result of two strings holds.
pub open spec fn text_result(r: Result<String, String>) -> Result<Seq<char>, Seq<char>> {
    match r {
        Ok(s) => Ok(s@),
        Err(e) => Err(e@),
    }
}

/// What each string of `v` holds.
pub open spec fn views(v: Seq<String>) -> Seq<Seq<char>> {
    Seq::new(v.len(), |i: int| v[i]@)
}

/// Tells whether `c` is white space.
pub fn is_whitespace(c: char) -> (b: bool)
    ensures
        b == is_white_space(c),
{
    let u: u32 = c as u32;
    (0x09 <= u && u <= 0x0D) || u == 0x20 || u == 0x85 || u == 0xA0 || u == 0x1680 || (0x2000 <= u
        && u <= 0x200A) || u == 0x2028 || u == 0x2029 || u == 0x202F || u == 0x205F || u == 0x3000
}

/// The characters of `s`, in order.
pub fn to_chars(s: &str) -> (v: Vec<char>)
    ensures
        v@ == s@,
{
    let mut v: Vec<char> = Vec::new();
    for c in it: s.chars()
        invariant
            v@ == it.seq().take(it.index() as int),
    {
        v.push(c);
    }
    v
}

/// The characters `chars[from..to]` as a string.
pub fn string_of(chars: &Vec<char>, from: usize, to: usize) -> (s: String)
    requires
        from <= to <= chars@.len(),
    ensures
        s@ == chars@.subrange(from as int, to as int),
{
    let mut s = String::new();
    let mut i: usize = from;
    while i < to
        invariant
            from <= i <= to <= chars@.len(),
            s@ == chars@.subrange(from as int, i as int),
        decreases to - i,
    {
        s.push(chars[i]);
        i += 1;
    }
    s
}

/// Tells whether `s` is empty or holds white space only.
pub fn is_blank(s: &str) -> (b: bool)
    ensures
        b == all_white_space(s@),
{
    let chars = to_chars(s);
    let mut i: usize = 0;
    while i < chars.len()
        invariant
            i <= chars@.len(),
            chars@ == s@,
            forall|j: int| 0 <= j < i ==> is_white_space(#[trigger] s@[j]),
        decreases chars@.len() - i,
    {
        if !is_whitespace(chars[i]) {
            return false;
        }
        i += 1;
    }
    true
}

/// Tells whether `line`, after its leading white space, begins with `prefix`.
pub fn trimmed_starts_with(line: &str, prefix: &str) -> (b: bool)
    ensures
        b == prefix@.is_prefix_of(trim_start(line@)),
{
    let l = to_chars(line);
    let p = to_chars(prefix);
    let n = l.len();
    let mut k: usize = 0;
    while k < n && is_whitespace(l[k])
        invariant
            k <= n == l@.len(),
            forall|j: int| 0 <= j < k ==> !non_space()(#[trigger] l@[j]),
        decreases l@.len() - k,
    {
        k += 1;
    }
    proof {
        lemma_first_where_is(l@, non_space(), k as int);
    }
    if p.len() > n - k {
        return false;
    }
    let mut i: usize = 0;
    while i < p.len()
        invariant
            i <= p@.len() <= n - k,
            k <= n == l@.len(),
            l@ == line@,
            p@ == prefix@,
            first_where(l@, non_space()) == k,
            forall|j: int| 0 <= j < i ==> p@[j] == l@[k + j],
        decreases p@.len() - i,
    {
        if p[i] != l[k + i] {
            assert(trim_start(l@).subrange(0, p@.len() as int)[i as int] == l@[k + i]);
            return false;
        }
        i += 1;
    }
    assert(p@ =~= trim_start(l@).subrange(0, p@.len() as int));
    true
}

/// Where each line of `chars` stands: for the `k`-th line, the index at
/// which it begins and the index behind its last character.
pub fn line_spans(chars: &Vec<char>) -> (r: Vec<(usize, usize)>)
    ensures
        span_texts(chars@, r@) == lines_of(chars@),
        forall|k: int|
            0 <= k < r@.len() ==> (#[trigger] r@[k]).0 == line_start(chars@, k as nat) && r@[k].0
                <= r@[k].1 <= chars@.len(),
{
    let n = chars.len();
    let mut out: Vec<(usize, usize)> = Vec::new();
    let mut start: usize = 0;
    let mut i: usize = 0;
    assert(chars@.skip(0) =~= chars@);
    assert(span_texts(chars@, out@) =~= Seq::empty());
    while i < n
        invariant
            start <= i <= n,
            n == chars@.len(),
            forall|j: int| start <= j < i ==> #[trigger] chars@[j] != '\n',
            lines_of(chars@) == span_texts(chars@, out@) + lines_of(chars@.skip(start as int)),
            start == line_start(chars@, out@.len()),
            forall|k: int|
                0 <= k < out@.len() ==> (#[trigger] out@[k]).0 == line_start(chars@, k as nat)
                    && out@[k].0 <= out@[k].1 <= n,
        decreases n - i,
    {
        if chars[i] == '\n' {
            let end = if i > start && chars[i - 1] == '\r' {
                i - 1
            } else {
                i
            };
            proof {
                let t = chars@.skip(start as int);
                let k = i - start;
                assert forall|j: int| 0 <= j < k implies !line_feed()(#[trigger] t[j]) by {
                    assert(t[j] == chars@[start + j]);
                }
                lemma_first_where_is(t, line_feed(), k);
                assert(t.take(k) =~= chars@.subrange(start as int, i as int));
                assert(t.skip(k + 1) =~= chars@.skip(i + 1));
                assert(chars@.subrange(start as int, end as int) =~= strip_cr(t.take(k)));
                assert(span_texts(chars@, out@.push((start, end))) =~= span_texts(chars@, out@)
                    + seq![chars@.subrange(start as int, end as int)]);
                lemma_next_line_start(chars@, out@.len(), i as int);
            }
            out.push((start, end));
            start = i + 1;
        }
        i += 1;
    }
    if start < n {
        proof {
            let t = chars@.skip(start as int);
            assert forall|j: int| 0 <= j < t.len() implies !line_feed()(#[trigger] t[j]) by {
                assert(t[j] == chars@[start + j]);
            }
            lemma_first_where_is(t, line_feed(), t.len() as int);
            assert(chars@.subrange(start as int, n as int) =~= t);
            assert(span_texts(chars@, out@.push((start, n))) =~= span_texts(chars@, out@) + seq![
                chars@.subrange(start as int, n as int),
            ]);
        }
        out.push((start, n));
    } else {
        assert(chars@.skip(start as int).len() == 0);
    }
    out
}

/// The stretches of `chars` that `spans` marks, as strings.
pub fn strings_of(chars: &Vec<char>, spans: &Vec<(usize, usize)>) -> (r: Vec<String>)
    requires
        forall|k: int|
            0 <= k < spans@.len() ==> (#[trigger] spans@[k]).0 <= spans@[k].1 <= chars@.len(),
    ensures
        views(r@) == span_texts(chars@, spans@),
{
    let mut out: Vec<String> = Vec::new();
    let mut k: usize = 0;
    while k < spans.len()
        invariant
            k <= spans@.len(),
            forall|j: int|
                0 <= j < spans@.len() ==> (#[trigger] spans@[j]).0 <= spans@[j].1 <= chars@.len(),
            views(out@) == span_texts(chars@, spans@).take(k as int),
        decreases spans@.len() - k,
    {
        let line = string_of(chars, spans[k].0, spans[k].1);
        proof {
            let all = span_texts(chars@, spans@);
            assert(all[k as int] == line@);
            assert(all.take(k + 1) =~= all.take(k as int).push(line@));
            assert(views(out@.push(line)) =~= views(out@).push(line@));
        }
        out.push(line);
        k += 1;
    }
    assert(span_texts(chars@, spans@).take(k as int) =~= span_texts(chars@, spans@));
    out
}

/// The lines of `text`, as `str::lines` gives them.
pub fn lines(text: &str) -> (r: Vec<String>)
    ensures
        views(r@) == lines_of(text@),
{
    let chars = to_chars(text);
    let spans = line_spans(&chars);
    strings_of(&chars, &spans)
}

/// Tells whether the last character of `s` is a line feed.
pub fn ends_with_line_feed(s: &str) -> (b: bool)
    ensures
        b == (s@.len() > 0 && s@.last() == '\n'),
{
    let chars = to_chars(s);
    chars.len() > 0 && chars[chars.len() - 1] == '\n'
}

} // verus!
