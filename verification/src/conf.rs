//! The server's configuration file: a text of `key = value` lines. The
//! seeder creates it with safe defaults, or forces three settings off in a
//! file that is already there.

use crate::text::{
    ends_with_cr, ends_with_line_feed, first_where, is_white_space, lemma_first_where,
    lemma_first_where_is, lemma_line_from_span, lemma_line_span, lemma_lines_hold_no_line_feed,
    lemma_lines_of_closed_text, lemma_lines_of_concat, lemma_lines_of_first_line, lemma_with_line,
    line_feed, line_spans, line_start, lines_of, no_line_feed, non_space, span_texts, string_of,
    strings_of, strip_cr, to_chars, trim_start, trimmed_starts_with, views, with_line,
};
use vstd::prelude::*;

verus! {

/// The test "begins with `key`, leading white space aside", as a value.
pub open spec fn key_test(key: Seq<char>) -> spec_fn(Seq<char>) -> bool {
    |line: Seq<char>| key.is_prefix_of(trim_start(line))
}

/// The index of the first line of `text` that begins with `key`; the number
/// of lines where none does.
pub open spec fn key_line(text: Seq<char>, key: Seq<char>) -> nat {
    first_where(lines_of(text), key_test(key))
}

/// The first line of `text` that begins with `key` reads `line`.
pub open spec fn key_reads(text: Seq<char>, key: Seq<char>, line: Seq<char>) -> bool {
    key_line(text, key) < lines_of(text).len() && lines_of(text)[key_line(text, key) as int]
        == line
}

/// The line that sets `key` to `value`.
pub open spec fn entry(key: Seq<char>, value: Seq<char>) -> Seq<char> {
    key + seq![' ', '=', ' '] + value
}

/// `key = value` is one line that begins with `key` and reads the same
/// wherever it stands: the key is not empty and does not begin with white
/// space, neither key nor value holds a line feed, and the line does not end
/// with a carriage return.
pub open spec fn plain_entry(key: Seq<char>, value: Seq<char>) -> bool {
    &&& key.len() > 0
    &&& !is_white_space(key[0])
    &&& no_line_feed(key)
    &&& no_line_feed(value)
    &&& !ends_with_cr(entry(key, value))
}

/// `text`, with a line feed added unless it ends with one.
pub open spec fn with_line_end(text: Seq<char>) -> Seq<char> {
    if text.len() > 0 && text.last() == '\n' {
        text
    } else {
        text.push('\n')
    }
}

/// `text` with `key` set to `value`. The first line that begins with `key`
/// becomes `key = value`; what ends that line, and the rest of the text,
/// stay as they are. Where no line begins with `key`, `key = value` and a
/// line feed are added at the end, behind a line feed where the text did not
/// end with one.
pub open spec fn patched(text: Seq<char>, key: Seq<char>, value: Seq<char>) -> Seq<char> {
    if key_line(text, key) < lines_of(text).len() {
        with_line(text, key_line(text, key), entry(key, value))
    } else {
        with_line_end(text) + entry(key, value) + seq!['\n']
    }
}

/// The line `key = value`.
pub fn entry_line(key: &str, value: &str) -> (r: String)
    ensures
        r@ == entry(key@, value@),
{
    let mut r = String::new();
    r.append(key);
    r.push(' ');
    r.push('=');
    r.push(' ');
    r.append(value);
    assert(r@ =~= entry(key@, value@));
    r
}

/// The index of the first of `lines` that begins with `key`, leading white
/// space aside.
pub fn find_key_line(lines: &Vec<String>, key: &str) -> (r: Option<usize>)
    ensures
        match r {
            Some(p) => p < lines@.len() && p == first_where(views(lines@), key_test(key@)),
            None => first_where(views(lines@), key_test(key@)) == lines@.len(),
        },
{
    let mut i: usize = 0;
    while i < lines.len()
        invariant
            i <= lines@.len(),
            forall|j: int| 0 <= j < i ==> !key_test(key@)(#[trigger] views(lines@)[j]),
        decreases lines@.len() - i,
    {
        if trimmed_starts_with(lines[i].as_str(), key) {
            proof {
                lemma_first_where_is(views(lines@), key_test(key@), i as int);
            }
            return Some(i);
        }
        i += 1;
    }
    proof {
        lemma_first_where_is(views(lines@), key_test(key@), i as int);
    }
    None
}

/// Sets `key` to `value` in `text`. The first line that begins with `key`,
/// leading white space aside, is replaced by `key = value`, in its place:
/// what ends the line, and everything before and after it, stay as they
/// are. Where no line begins with `key`, `key = value` and a line feed are
/// added at the end, behind a line feed if `text` did not end with one.
pub fn patch_conf_key(text: String, key: &str, value: &str) -> (r: String)
    ensures
        r@ == patched(text@, key@, value@),
{
    let replacement = entry_line(key, value);
    let chars = to_chars(text.as_str());
    let spans = line_spans(&chars);
    let ls = strings_of(&chars, &spans);
    match find_key_line(&ls, key) {
        Some(pos) => {
            let from = spans[pos].0;
            let to = spans[pos].1;
            assert(span_texts(chars@, spans@)[pos as int] == lines_of(text@)[pos as int]);
            let mut out = string_of(&chars, 0, from);
            out.append(replacement.as_str());
            let rest = string_of(&chars, to, chars.len());
            out.append(rest.as_str());
            assert(out@ =~= with_line(text@, pos as nat, entry(key@, value@)));
            out
        },
        None => {
            let mut text = text;
            if !ends_with_line_feed(text.as_str()) {
                text.push('\n');
            }
            text.append(replacement.as_str());
            text.push('\n');
            text
        },
    }
}

/// A key that a line begins with holds no line feed, as the line holds none.
proof fn lemma_key_holds_no_line_feed(line: Seq<char>, key: Seq<char>)
    requires
        no_line_feed(line),
        key_test(key)(line),
    ensures
        no_line_feed(key),
{
    lemma_first_where(line, non_space());
    let k = first_where(line, non_space()) as int;
    let t = trim_start(line);
    assert forall|i: int| 0 <= i < key.len() implies #[trigger] key[i] != '\n' by {
        assert(key[i] == t.subrange(0, key.len() as int)[i]);
        assert(t[i] == line[k + i]);
    }
}

/// `key = value` is not empty, and holds no line feed where neither `key`
/// nor `value` does.
proof fn lemma_entry_is_one_line(key: Seq<char>, value: Seq<char>)
    requires
        no_line_feed(key),
        no_line_feed(value),
    ensures
        no_line_feed(entry(key, value)),
        entry(key, value).len() > 0,
{
    let e = entry(key, value);
    assert forall|i: int| 0 <= i < e.len() implies #[trigger] e[i] != '\n' by {
        if i < key.len() {
            assert(e[i] == key[i]);
        } else if i >= key.len() + 3 {
            assert(e[i] == value[i - key.len() - 3]);
        }
    }
}

/// A line that begins with a character that is not white space has no
/// leading white space to lose.
proof fn lemma_untrimmed(line: Seq<char>)
    requires
        line.len() > 0,
        !is_white_space(line[0]),
    ensures
        trim_start(line) == line,
{
    assert(non_space()(line[0]));
    lemma_first_where_is(line, non_space(), 0);
    assert(line.skip(0) =~= line);
}

/// `key = value` begins with `key`, where `key` is not empty and does not
/// begin with white space.
proof fn lemma_entry_begins_with_key(key: Seq<char>, value: Seq<char>)
    requires
        key.len() > 0,
        !is_white_space(key[0]),
    ensures
        key_test(key)(entry(key, value)),
{
    let e = entry(key, value);
    assert(e[0] == key[0]);
    lemma_untrimmed(e);
    assert(e.subrange(0, key.len() as int) =~= key);
}

/// A line that does not begin with `key` does not do so without its
/// trailing carriage return either, where `key` is not empty.
proof fn lemma_strip_cr_keeps_mismatch(line: Seq<char>, key: Seq<char>)
    requires
        key.len() > 0,
        !key_test(key)(line),
    ensures
        !key_test(key)(strip_cr(line)),
{
    if ends_with_cr(line) {
        let m = line.drop_last();
        lemma_first_where(m, non_space());
        let k = first_where(m, non_space()) as int;
        if k < m.len() {
            assert forall|j: int| 0 <= j < k implies !non_space()(#[trigger] line[j]) by {
                assert(line[j] == m[j]);
            }
            assert(line[k] == m[k]);
            lemma_first_where_is(line, non_space(), k);
            if key.is_prefix_of(trim_start(m)) {
                assert(trim_start(line).subrange(0, key.len() as int) =~= trim_start(m).subrange(
                    0,
                    key.len() as int,
                ));
            }
        }
    }
}

/// After a text that is empty or ends with a line feed, a line and a line
/// feed add that line, without a trailing carriage return, to its lines.
proof fn lemma_lines_after_closed_text(closed: Seq<char>, e: Seq<char>)
    requires
        closed.len() == 0 || closed.last() == '\n',
        no_line_feed(e),
    ensures
        lines_of(closed + e + seq!['\n']) == lines_of(closed).push(strip_cr(e)),
{
    let none = Seq::<char>::empty();
    assert(closed + e + seq!['\n'] =~= closed + (e + seq!['\n'] + none));
    lemma_lines_of_concat(closed, e + seq!['\n'] + none);
    lemma_lines_of_first_line(e, none);
    assert(lines_of(closed) + (seq![strip_cr(e)] + lines_of(none)) =~= lines_of(closed).push(
        strip_cr(e),
    ));
}

/// The lines of a text that was given a line feed at its end where it had
/// none: those of the text, the last of them without a trailing carriage
/// return where the line feed was added; one empty line where the text was
/// empty.
proof fn lemma_lines_with_line_end(text: Seq<char>)
    ensures
        lines_of(with_line_end(text)) == if text.len() == 0 {
            seq![Seq::<char>::empty()]
        } else if text.last() == '\n' {
            lines_of(text)
        } else {
            lines_of(text).drop_last().push(strip_cr(lines_of(text).last()))
        },
        text.len() > 0 ==> lines_of(text).len() > 0,
{
    if text.len() == 0 {
        let none = Seq::<char>::empty();
        assert(text.push('\n') =~= none + seq!['\n'] + none);
        lemma_lines_of_first_line(none, none);
        assert(seq![strip_cr(none)] + lines_of(none) =~= seq![none]);
    } else if text.last() != '\n' {
        lemma_lines_of_closed_text(text);
    } else {
        lemma_first_where(text, line_feed());
    }
}

/// Where a line begins with `key`, patching rewrites the first such line to
/// `key = value` and leaves the number of lines, and every other line, as
/// they were: provided `key = value` holds no line feed and does not end
/// with a carriage return.
pub proof fn lemma_patch_rewrites_line(text: Seq<char>, key: Seq<char>, value: Seq<char>)
    requires
        key_line(text, key) < lines_of(text).len(),
        no_line_feed(value),
        !ends_with_cr(entry(key, value)),
    ensures
        lines_of(patched(text, key, value)) == lines_of(text).update(
            key_line(text, key) as int,
            entry(key, value),
        ),
        line_start(patched(text, key, value), key_line(text, key)) == line_start(
            text,
            key_line(text, key),
        ),
{
    let ls = lines_of(text);
    let p = key_line(text, key);
    lemma_first_where(ls, key_test(key));
    lemma_lines_hold_no_line_feed(text);
    lemma_key_holds_no_line_feed(ls[p as int], key);
    lemma_entry_is_one_line(key, value);
    lemma_with_line(text, p, entry(key, value));
}

/// Where no line begins with `key`, patching adds the one line `key = value`
/// after the lines of the text, which stay as they were and in their order:
/// provided the text is not empty and does not end with a carriage return,
/// and `key = value` holds no line feed and does not end with a carriage
/// return.
pub proof fn lemma_patch_appends_line(text: Seq<char>, key: Seq<char>, value: Seq<char>)
    requires
        key_line(text, key) >= lines_of(text).len(),
        no_line_feed(key),
        no_line_feed(value),
        !ends_with_cr(entry(key, value)),
        text.len() > 0,
        text.last() != '\r',
    ensures
        lines_of(patched(text, key, value)) == lines_of(text).push(entry(key, value)),
{
    let ls = lines_of(text);
    lemma_lines_with_line_end(text);
    if text.last() != '\n' {
        lemma_lines_of_closed_text(text);
        assert(ls.drop_last().push(strip_cr(ls.last())) =~= ls);
    }
    lemma_entry_is_one_line(key, value);
    lemma_lines_after_closed_text(with_line_end(text), entry(key, value));
}

/// After patching, the first line that begins with `key` reads
/// `key = value`, whatever the text was: provided the entry is plain.
pub proof fn lemma_patch_sets_key(text: Seq<char>, key: Seq<char>, value: Seq<char>)
    requires
        plain_entry(key, value),
    ensures
        key_reads(patched(text, key, value), key, entry(key, value)),
{
    let ls = lines_of(text);
    let p = key_line(text, key) as int;
    let e = entry(key, value);
    let after = lines_of(patched(text, key, value));
    lemma_entry_is_one_line(key, value);
    lemma_entry_begins_with_key(key, value);
    lemma_first_where(ls, key_test(key));
    if p < ls.len() {
        lemma_patch_rewrites_line(text, key, value);
        assert forall|j: int| 0 <= j < p implies !key_test(key)(#[trigger] after[j]) by {
            assert(after[j] == ls[j]);
        }
        lemma_first_where_is(after, key_test(key), p);
    } else {
        let closed = lines_of(with_line_end(text));
        lemma_lines_with_line_end(text);
        lemma_lines_after_closed_text(with_line_end(text), e);
        assert forall|j: int| 0 <= j < closed.len() implies !key_test(key)(
            #[trigger] after[j],
        ) by {
            assert(after[j] == closed[j]);
            if text.len() == 0 {
                assert(trim_start(closed[j]).len() == 0);
            } else if text.last() != '\n' && j == ls.len() - 1 {
                assert(!key_test(key)(ls[j]));
                lemma_strip_cr_keeps_mismatch(ls[j], key);
            } else {
                assert(closed[j] == ls[j]);
            }
        }
        assert(after[closed.len() as int] == e);
        lemma_first_where_is(after, key_test(key), closed.len() as int);
    }
}

/// Patching keeps every line that does not begin with `key`: provided
/// `key = value` holds no line feed and does not end with a carriage return;
/// and, where no line begins with `key`, the line does not end with a
/// carriage return.
pub proof fn lemma_patch_keeps_line(
    text: Seq<char>,
    key: Seq<char>,
    value: Seq<char>,
    line: Seq<char>,
)
    requires
        no_line_feed(value),
        !ends_with_cr(entry(key, value)),
        lines_of(text).contains(line),
        !key_test(key)(line),
        key_line(text, key) < lines_of(text).len() || !ends_with_cr(line),
    ensures
        lines_of(patched(text, key, value)).contains(line),
{
    let ls = lines_of(text);
    let p = key_line(text, key) as int;
    let e = entry(key, value);
    let after = lines_of(patched(text, key, value));
    let j = choose|j: int| 0 <= j < ls.len() && ls[j] == line;
    lemma_first_where(ls, key_test(key));
    if p < ls.len() {
        lemma_patch_rewrites_line(text, key, value);
        assert(after[j] == line);
    } else {
        let closed = with_line_end(text);
        lemma_lines_with_line_end(text);
        assert(lines_of(closed)[j] == line);
        let none = Seq::<char>::empty();
        assert(closed + e + seq!['\n'] =~= closed + (e + seq!['\n'] + none));
        lemma_lines_of_concat(closed, e + seq!['\n'] + none);
        assert(after[j] == line);
    }
}

/// Patching one key leaves another as it reads. Where the first line that
/// begins with `key` reads `line`, it still does after `other` was set to
/// `value`: provided `line` does not begin with `other` and does not end
/// with a carriage return, and `other = value` is one line that does not
/// begin with `key` and does not end with a carriage return.
pub proof fn lemma_patch_keeps_key(
    text: Seq<char>,
    other: Seq<char>,
    value: Seq<char>,
    key: Seq<char>,
    line: Seq<char>,
)
    requires
        key_reads(text, key, line),
        !ends_with_cr(line),
        !key_test(other)(line),
        no_line_feed(other),
        no_line_feed(value),
        !ends_with_cr(entry(other, value)),
        !key_test(key)(entry(other, value)),
    ensures
        key_reads(patched(text, other, value), key, line),
{
    let ls = lines_of(text);
    let q = key_line(text, key) as int;
    let p = key_line(text, other) as int;
    let e = entry(other, value);
    let after = lines_of(patched(text, other, value));
    lemma_first_where(ls, key_test(key));
    lemma_first_where(ls, key_test(other));
    lemma_entry_is_one_line(other, value);
    if p < ls.len() {
        lemma_patch_rewrites_line(text, other, value);
        assert forall|j: int| 0 <= j < q implies !key_test(key)(#[trigger] after[j]) by {
            if j != p {
                assert(after[j] == ls[j]);
            }
        }
        assert(after[q] == line);
    } else {
        let closed = lines_of(with_line_end(text));
        lemma_lines_with_line_end(text);
        lemma_lines_after_closed_text(with_line_end(text), e);
        assert forall|j: int| 0 <= j < q implies !key_test(key)(#[trigger] after[j]) by {
            assert(after[j] == ls[j]);
        }
        assert(after[q] == closed[q]);
        assert(after[q] == line);
    }
    lemma_first_where_is(after, key_test(key), q);
}

/// Rewriting one element of a sequence leaves what a filter keeps of it,
/// where the filter keeps neither what stood there nor what stands there
/// now.
proof fn lemma_filter_update<A>(ls: Seq<A>, p: int, e: A, f: spec_fn(A) -> bool)
    requires
        0 <= p < ls.len(),
        !f(ls[p]),
        !f(e),
    ensures
        ls.update(p, e).filter(f) == ls.filter(f),
{
    let a = ls.take(p);
    let b = ls.skip(p + 1);
    assert(ls =~= a.push(ls[p]) + b);
    assert(ls.update(p, e) =~= a.push(e) + b);
    Seq::filter_distributes_over_add(a.push(ls[p]), b, f);
    Seq::filter_distributes_over_add(a.push(e), b, f);
    a.lemma_filter_push(ls[p], f);
    a.lemma_filter_push(e, f);
}

/// Patching leaves the lines that begin with other keys as they are and in
/// their order. For any test `f` that no line beginning with `key` passes,
/// the lines that pass it are the same before and after: provided the text
/// is not empty and does not end with a carriage return, and `key = value`
/// holds no line feed and does not end with a carriage return. The text is
/// not empty afterwards, and does not end with a carriage return.
pub proof fn lemma_patch_keeps_others(
    text: Seq<char>,
    key: Seq<char>,
    value: Seq<char>,
    f: spec_fn(Seq<char>) -> bool,
)
    requires
        text.len() > 0,
        text.last() != '\r',
        no_line_feed(key),
        no_line_feed(value),
        !ends_with_cr(entry(key, value)),
        !f(entry(key, value)),
        forall|line: Seq<char>| #[trigger] f(line) ==> !key_test(key)(line),
    ensures
        lines_of(patched(text, key, value)).filter(f) == lines_of(text).filter(f),
        patched(text, key, value).len() > 0,
        patched(text, key, value).last() != '\r',
{
    let ls = lines_of(text);
    let p = key_line(text, key);
    let e = entry(key, value);
    lemma_entry_is_one_line(key, value);
    lemma_first_where(ls, key_test(key));
    if p < ls.len() {
        lemma_patch_rewrites_line(text, key, value);
        assert(!f(ls[p as int]));
        lemma_filter_update(ls, p as int, e, f);
        lemma_line_span(text, p);
        let to = line_start(text, p) as int + ls[p as int].len();
        if to < text.len() {
            assert(patched(text, key, value).last() == text.skip(to).last());
        } else {
            assert(patched(text, key, value).last() == e.last());
        }
    } else {
        lemma_patch_appends_line(text, key, value);
        ls.lemma_filter_push(e, f);
    }
}

/// A text in which the first line that begins with `key` reads
/// `key = value` already is left as it is.
pub proof fn lemma_patch_settled(text: Seq<char>, key: Seq<char>, value: Seq<char>)
    requires
        key_reads(text, key, entry(key, value)),
    ensures
        patched(text, key, value) == text,
{
    let p = key_line(text, key);
    lemma_line_span(text, p);
    let from = line_start(text, p) as int;
    let to = from + entry(key, value).len();
    assert(text.subrange(from, to) == entry(key, value));
    assert(text.take(from) + text.subrange(from, to) + text.skip(to) =~= text);
}

/// Patching twice gives what patching once gave: provided the entry is
/// plain.
pub proof fn lemma_patch_is_idempotent(text: Seq<char>, key: Seq<char>, value: Seq<char>)
    requires
        plain_entry(key, value),
    ensures
        patched(patched(text, key, value), key, value) == patched(text, key, value),
{
    lemma_patch_sets_key(text, key, value);
    lemma_patch_settled(patched(text, key, value), key, value);
}

/// The settings that must be off for the server to run without a window of
/// its own: its web interface, the browser it opens at start, its tray icon.
pub open spec fn safety_key(i: int) -> Seq<char> {
    if i == 0 {
        "server.webUIEnabled"@
    } else if i == 1 {
        "server.initialOpenInBrowserEnabled"@
    } else {
        "server.systemTrayEnabled"@
    }
}

/// The line that switches the `i`-th of these settings off.
pub open spec fn safe_line(i: int) -> Seq<char> {
    entry(safety_key(i), "false"@)
}

/// Each of the three settings is off: the first line that begins with its
/// key switches it off.
pub open spec fn is_safe(text: Seq<char>) -> bool {
    forall|i: int| 0 <= i < 3 ==> key_reads(text, #[trigger] safety_key(i), safe_line(i))
}

/// `text` with each of the three settings patched to `false`, in turn.
pub open spec fn hardened(text: Seq<char>) -> Seq<char> {
    patched(
        patched(patched(text, safety_key(0), "false"@), safety_key(1), "false"@),
        safety_key(2),
        "false"@,
    )
}

/// The configuration written where there is none: a server on the loopback
/// address and its usual port, without web interface, browser or tray icon.
pub const DEFAULT_SERVER_CONF: &'static str = "server.ip = \"127.0.0.1\"\nserver.port = 4567\nserver.webUIEnabled = false\nserver.initialOpenInBrowserEnabled = false\nserver.systemTrayEnabled = false\nserver.webUIInterface = \"browser\"\nserver.webUIFlavor = \"WebUI\"\nserver.webUIChannel = \"stable\"\nserver.electronPath = \"\"\nserver.debugLogsEnabled = false\nserver.downloadAsCbz = true\nserver.autoDownloadNewChapters = false\nserver.globalUpdateInterval = 12\nserver.maxSourcesInParallel = 6\nserver.extensionRepos = []\n";

/// What the three settings and their lines are made of: each entry is
/// plain, and no key is one that another key's line begins with.
proof fn lemma_safe_lines()
    ensures
        forall|i: int| 0 <= i < 3 ==> plain_entry(#[trigger] safety_key(i), "false"@),
        forall|i: int, j: int|
            #![trigger safe_line(i), safety_key(j)]
            0 <= i < 3 && 0 <= j < 3 && i != j ==> !key_test(safety_key(j))(safe_line(i)),
{
    reveal_strlit("server.webUIEnabled");
    reveal_strlit("server.initialOpenInBrowserEnabled");
    reveal_strlit("server.systemTrayEnabled");
    reveal_strlit("false");
    assert forall|i: int, j: int|
        #![trigger safe_line(i), safety_key(j)]
        0 <= i < 3 && 0 <= j < 3 && i != j implies !key_test(safety_key(j))(safe_line(i)) by {
        let line = safe_line(i);
        assert(line[0] == 's');
        lemma_untrimmed(line);
        let key = safety_key(j);
        assert(line[7] == safety_key(i)[7]);
        assert(key[7] != line[7]);
        if key.len() <= line.len() {
            assert(line.subrange(0, key.len() as int)[7] == line[7]);
        }
    }
    assert forall|i: int| 0 <= i < 3 implies plain_entry(#[trigger] safety_key(i), "false"@) by {
        assert(safety_key(i)[0] == 's');
        assert(entry(safety_key(i), "false"@).last() == 'e');
    }
}

/// Patching the three settings leaves each of them off, whatever the text
/// was.
pub proof fn lemma_hardened_is_safe(text: Seq<char>)
    ensures
        is_safe(hardened(text)),
{
    lemma_safe_lines();
    let off = "false"@;
    let first = patched(text, safety_key(0), off);
    let second = patched(first, safety_key(1), off);
    assert(plain_entry(safety_key(0), off) && plain_entry(safety_key(1), off) && plain_entry(
        safety_key(2),
        off,
    ));
    lemma_patch_sets_key(text, safety_key(0), off);
    lemma_patch_sets_key(first, safety_key(1), off);
    lemma_patch_sets_key(second, safety_key(2), off);
    assert(!key_test(safety_key(1))(safe_line(0)) && !key_test(safety_key(0))(safe_line(1)));
    assert(!key_test(safety_key(2))(safe_line(0)) && !key_test(safety_key(0))(safe_line(2)));
    assert(!key_test(safety_key(2))(safe_line(1)) && !key_test(safety_key(1))(safe_line(2)));
    lemma_patch_keeps_key(first, safety_key(1), off, safety_key(0), safe_line(0));
    lemma_patch_keeps_key(second, safety_key(2), off, safety_key(0), safe_line(0));
    lemma_patch_keeps_key(second, safety_key(2), off, safety_key(1), safe_line(1));
}

/// A text in which the three settings are off is left as it is.
pub proof fn lemma_safe_is_settled(text: Seq<char>)
    requires
        is_safe(text),
    ensures
        hardened(text) == text,
{
    let off = "false"@;
    assert(key_reads(text, safety_key(0), safe_line(0)));
    assert(key_reads(text, safety_key(1), safe_line(1)));
    assert(key_reads(text, safety_key(2), safe_line(2)));
    lemma_patch_settled(text, safety_key(0), off);
    lemma_patch_settled(text, safety_key(1), off);
    lemma_patch_settled(text, safety_key(2), off);
}

/// Seeding a second time changes nothing: patching the three settings in a
/// text in which they were patched gives that text.
pub proof fn lemma_hardened_is_idempotent(text: Seq<char>)
    ensures
        hardened(hardened(text)) == hardened(text),
{
    lemma_hardened_is_safe(text);
    lemma_safe_is_settled(hardened(text));
}

/// Patching the three settings keeps every line that begins with none of
/// their keys and does not end with a carriage return.
pub proof fn lemma_hardened_keeps_line(text: Seq<char>, line: Seq<char>)
    requires
        lines_of(text).contains(line),
        !ends_with_cr(line),
        forall|i: int| 0 <= i < 3 ==> !key_test(#[trigger] safety_key(i))(line),
    ensures
        lines_of(hardened(text)).contains(line),
{
    lemma_safe_lines();
    let off = "false"@;
    let first = patched(text, safety_key(0), off);
    let second = patched(first, safety_key(1), off);
    assert(plain_entry(safety_key(0), off) && plain_entry(safety_key(1), off) && plain_entry(
        safety_key(2),
        off,
    ));
    assert(!key_test(safety_key(0))(line) && !key_test(safety_key(1))(line) && !key_test(
        safety_key(2),
    )(line));
    lemma_patch_keeps_line(text, safety_key(0), off, line);
    lemma_patch_keeps_line(first, safety_key(1), off, line);
    lemma_patch_keeps_line(second, safety_key(2), off, line);
}

/// The test "begins with none of the three keys", as a value.
pub open spec fn other_line() -> spec_fn(Seq<char>) -> bool {
    |line: Seq<char>|
        !key_test(safety_key(0))(line) && !key_test(safety_key(1))(line) && !key_test(
            safety_key(2),
        )(line)
}

/// Patching the three settings leaves the lines that begin with none of
/// their keys as they are and in their order; none of them is added, and
/// none is lost: provided the text is not empty and does not end with a
/// carriage return.
pub proof fn lemma_hardened_keeps_others(text: Seq<char>)
    requires
        text.len() > 0,
        text.last() != '\r',
    ensures
        lines_of(hardened(text)).filter(other_line()) == lines_of(text).filter(other_line()),
{
    lemma_safe_lines();
    let off = "false"@;
    let first = patched(text, safety_key(0), off);
    let second = patched(first, safety_key(1), off);
    assert(plain_entry(safety_key(0), off) && plain_entry(safety_key(1), off) && plain_entry(
        safety_key(2),
        off,
    ));
    lemma_entry_begins_with_key(safety_key(0), off);
    lemma_entry_begins_with_key(safety_key(1), off);
    lemma_entry_begins_with_key(safety_key(2), off);
    lemma_patch_keeps_others(text, safety_key(0), off, other_line());
    lemma_patch_keeps_others(first, safety_key(1), off, other_line());
    lemma_patch_keeps_others(second, safety_key(2), off, other_line());
}

/// A line that begins with a character that is not white space, and differs
/// from `key` at an index of both, does not begin with `key`.
proof fn lemma_differs_from_key(line: Seq<char>, key: Seq<char>, at: int)
    requires
        line.len() > 0,
        !is_white_space(line[0]),
        0 <= at < key.len(),
        at < line.len(),
        line[at] != key[at],
    ensures
        !key_test(key)(line),
{
    lemma_untrimmed(line);
    if key.len() <= line.len() {
        assert(line.subrange(0, key.len() as int)[at] == line[at]);
    }
}

/// The first five lines of the default configuration.
proof fn lemma_default_lines()
    ensures
        lines_of(DEFAULT_SERVER_CONF@).len() > 4,
        lines_of(DEFAULT_SERVER_CONF@)[0] == "server.ip = \"127.0.0.1\""@,
        lines_of(DEFAULT_SERVER_CONF@)[1] == "server.port = 4567"@,
        lines_of(DEFAULT_SERVER_CONF@)[2] == safe_line(0),
        lines_of(DEFAULT_SERVER_CONF@)[3] == safe_line(1),
        lines_of(DEFAULT_SERVER_CONF@)[4] == safe_line(2),
{
    lemma_safe_lines();
    reveal_strlit("server.webUIEnabled");
    reveal_strlit("server.initialOpenInBrowserEnabled");
    reveal_strlit("server.systemTrayEnabled");
    reveal_strlit("false");
    reveal_strlit("server.ip = \"127.0.0.1\"");
    reveal_strlit("server.port = 4567");
    reveal_strlit("server.ip = \"127.0.0.1\"\nserver.port = 4567\nserver.webUIEnabled = false\nserver.initialOpenInBrowserEnabled = false\nserver.systemTrayEnabled = false\nserver.webUIInterface = \"browser\"\nserver.webUIFlavor = \"WebUI\"\nserver.webUIChannel = \"stable\"\nserver.electronPath = \"\"\nserver.debugLogsEnabled = false\nserver.downloadAsCbz = true\nserver.autoDownloadNewChapters = false\nserver.globalUpdateInterval = 12\nserver.maxSourcesInParallel = 6\nserver.extensionRepos = []\n");
    let d = DEFAULT_SERVER_CONF@;
    assert(d.subrange(0, 23) =~= "server.ip = \"127.0.0.1\""@);
    assert(d.subrange(24, 42) =~= "server.port = 4567"@);
    assert(d.subrange(43, 70) =~= safe_line(0));
    assert(d.subrange(71, 113) =~= safe_line(1));
    assert(d.subrange(114, 146) =~= safe_line(2));
    assert(plain_entry(safety_key(0), "false"@) && plain_entry(safety_key(1), "false"@)
        && plain_entry(safety_key(2), "false"@));
    lemma_entry_is_one_line(safety_key(0), "false"@);
    lemma_entry_is_one_line(safety_key(1), "false"@);
    lemma_entry_is_one_line(safety_key(2), "false"@);
    assert(d.take(0).len() == 0);
    lemma_line_from_span(d, 0, 0, 23);
    lemma_line_from_span(d, 1, 24, 42);
    lemma_line_from_span(d, 2, 43, 70);
    lemma_line_from_span(d, 3, 71, 113);
    lemma_line_from_span(d, 4, 114, 146);
}

/// The default configuration has each of the three settings off, and
/// patching them leaves it as it is.
pub proof fn lemma_default_is_safe()
    ensures
        is_safe(DEFAULT_SERVER_CONF@),
        hardened(DEFAULT_SERVER_CONF@) == DEFAULT_SERVER_CONF@,
{
    lemma_safe_lines();
    lemma_default_lines();
    reveal_strlit("server.webUIEnabled");
    reveal_strlit("server.initialOpenInBrowserEnabled");
    reveal_strlit("server.systemTrayEnabled");
    reveal_strlit("server.ip = \"127.0.0.1\"");
    reveal_strlit("server.port = 4567");
    let ls = lines_of(DEFAULT_SERVER_CONF@);
    assert forall|i: int| 0 <= i < 3 implies key_reads(
        DEFAULT_SERVER_CONF@,
        #[trigger] safety_key(i),
        safe_line(i),
    ) by {
        let key = safety_key(i);
        assert(plain_entry(key, "false"@));
        lemma_differs_from_key(ls[0], key, if i == 1 { 8 } else { 7 });
        lemma_differs_from_key(ls[1], key, 7);
        assert forall|j: int| 0 <= j < 2 + i implies !key_test(key)(#[trigger] ls[j]) by {
            if j >= 2 {
                assert(ls[j] == safe_line(j - 2));
                assert(!key_test(safety_key(i))(safe_line(j - 2)));
            }
        }
        lemma_entry_begins_with_key(key, "false"@);
        lemma_first_where_is(ls, key_test(key), 2 + i);
    }
    lemma_safe_is_settled(DEFAULT_SERVER_CONF@);
}

/// What stands where the configuration file belongs.
#[derive(Debug, Clone, PartialEq, Eq)]
pub enum ConfFile {
    /// No file is there.
    Missing,
    /// A file is there and could not be read.
    Unreadable,
    /// A file is there, with this text.
    Present(String),
}

/// What is to be done about the configuration file.
#[derive(Debug, Clone, PartialEq, Eq)]
pub enum SeedAction {
    /// Create the data directory with its parents, then write this text.
    Create(String),
    /// Write this text over the file.
    Rewrite(String),
    /// Leave everything as it is.
    Leave,
}

impl SeedAction {
    /// The text that is to be written, if any.
    pub open spec fn text(self) -> Option<Seq<char>> {
        match self {
            SeedAction::Create(t) => Some(t@),
            SeedAction::Rewrite(t) => Some(t@),
            SeedAction::Leave => None,
        }
    }
}

/// `action` is what is to be done where `found` stands: create the default
/// where no file is, rewrite a file that is there with the three settings
/// forced off, leave alone one that cannot be read.
pub open spec fn is_seed_action(found: ConfFile, action: SeedAction) -> bool {
    match found {
        ConfFile::Missing => action matches SeedAction::Create(t) && t@ == DEFAULT_SERVER_CONF@,
        ConfFile::Unreadable => action is Leave,
        ConfFile::Present(old) => action matches SeedAction::Rewrite(t) && t@ == hardened(old@),
    }
}

/// The default configuration, as an owned text.
pub fn default_server_conf() -> (r: String)
    ensures
        r@ == DEFAULT_SERVER_CONF@,
        is_safe(r@),
{
    proof {
        lemma_default_is_safe();
    }
    DEFAULT_SERVER_CONF.to_owned()
}

/// Forces the three settings off in `text`, and leaves the rest of it as
/// patching does.
pub fn patch_safety_keys(text: String) -> (r: String)
    ensures
        r@ == hardened(text@),
        is_safe(r@),
{
    proof {
        lemma_hardened_is_safe(text@);
    }
    let first = patch_conf_key(text, "server.webUIEnabled", "false");
    let second = patch_conf_key(first, "server.initialOpenInBrowserEnabled", "false");
    patch_conf_key(second, "server.systemTrayEnabled", "false")
}

/// Decides what to write for the configuration file. Where none is there,
/// the default is created; a file that is there keeps its text but for the
/// three settings, which are forced off; one that cannot be read is left
/// alone. Whatever is written has the three settings off, and a text that
/// has them off already is written back as it is.
pub fn seed_server_conf(found: ConfFile) -> (action: SeedAction)
    ensures
        is_seed_action(found, action),
        action.text() matches Some(t) ==> is_safe(t),
        found matches ConfFile::Present(given) ==> (is_safe(given@) ==> action.text() == Some(
            given@,
        )),
{
    match found {
        ConfFile::Missing => SeedAction::Create(default_server_conf()),
        ConfFile::Unreadable => SeedAction::Leave,
        ConfFile::Present(old) => {
            proof {
                if is_safe(old@) {
                    lemma_safe_is_settled(old@);
                }
            }
            SeedAction::Rewrite(patch_safety_keys(old))
        },
    }
}

} // verus!
