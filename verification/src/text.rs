//! Text as a sequence of characters, and the string operations that the rest
//! of the library is built on.
//!
//! Each operation is specified over `Seq<char>`, the view of `str` and
//! `String`.

use vstd::prelude::*;

verus! {

/// The view of a string.
pub type Text = Seq<char>;

// ─── Strings and vectors of characters ───────────────────────────────

/// `String::push` appends one character to the end of the string.
pub assume_specification[ String::push ](s: &mut String, c: char)
    ensures
        final(s)@ == old(s)@.push(c),
;

/// The characters of `s`, in order.
pub fn chars_of(s: &str) -> (r: Vec<char>)
    ensures
        r@ == s@,
{
    let mut out: Vec<char> = Vec::new();
    for c in it: s.chars()
        invariant
            it.seq() == s@,
            out@ == s@.take(it.index()),
    {
        assert(s@.take(it.index() + 1) =~= s@.take(it.index()).push(c));
        out.push(c);
    }
    assert(s@.take(s@.len() as int) =~= s@);
    out
}

/// The text made of `chars[from..to]`.
pub fn piece(chars: &Vec<char>, from: usize, to: usize) -> (r: String)
    requires
        from <= to <= chars@.len(),
    ensures
        r@ == chars@.subrange(from as int, to as int),
{
    let mut out = String::new();
    let mut i: usize = from;
    while i < to
        invariant
            from <= i <= to <= chars@.len(),
            out@ == chars@.subrange(from as int, i as int),
        decreases to - i,
    {
        out.push(chars[i]);
        i = i + 1;
        assert(chars@.subrange(from as int, i as int) =~= chars@.subrange(
            from as int,
            i - 1,
        ).push(chars@[i - 1]));
    }
    out
}

/// Are the two texts the same?
pub fn same(a: &str, b: &str) -> (r: bool)
    ensures
        r == (a@ == b@),
{
    a.to_owned() == b.to_owned()
}

/// Is the text among the texts?
pub fn is_listed(texts: &Vec<String>, s: &str) -> (r: bool)
    ensures
        r == texts.deep_view().contains(s@),
{
    let ghost all = texts.deep_view();
    let mut i: usize = 0;
    while i < texts.len()
        invariant
            i <= texts@.len(),
            all == texts.deep_view(),
            forall|j: int| 0 <= j < i ==> #[trigger] all[j] != s@,
        decreases texts@.len() - i,
    {
        assert(all[i as int] == texts@[i as int]@);
        if same(texts[i].as_str(), s) {
            return true;
        }
        i = i + 1;
    }
    false
}

// ─── Concatenation ───────────────────────────────────────────────────

/// `a` followed by `b`.
pub fn cat(a: &str, b: &str) -> (r: String)
    ensures
        r@ == a@ + b@,
{
    a.to_owned().concat(b)
}

/// Three texts in a row.
pub fn cat3(a: &str, b: &str, c: &str) -> (r: String)
    ensures
        r@ == a@ + b@ + c@,
{
    a.to_owned().concat(b).concat(c)
}

/// Four texts in a row.
pub fn cat4(a: &str, b: &str, c: &str, d: &str) -> (r: String)
    ensures
        r@ == a@ + b@ + c@ + d@,
{
    a.to_owned().concat(b).concat(c).concat(d)
}

/// Five texts in a row.
pub fn cat5(a: &str, b: &str, c: &str, d: &str, e: &str) -> (r: String)
    ensures
        r@ == a@ + b@ + c@ + d@ + e@,
{
    a.to_owned().concat(b).concat(c).concat(d).concat(e)
}

/// The items with `sep` between each two neighbours.
pub open spec fn joined(items: Seq<Text>, sep: Text) -> Text
    decreases items.len(),
{
    if items.len() == 0 {
        Seq::empty()
    } else if items.len() == 1 {
        items[0]
    } else {
        joined(items.drop_last(), sep) + sep + items.last()
    }
}

/// Joins the items with `sep`, as `[T]::join` does.
pub fn join(items: &Vec<String>, sep: &str) -> (r: String)
    ensures
        r@ == joined(items.deep_view(), sep@),
{
    let ghost all = items.deep_view();
    let mut out = String::new();
    let mut i: usize = 0;
    while i < items.len()
        invariant
            i <= items@.len(),
            all == items.deep_view(),
            out@ == joined(all.take(i as int), sep@),
        decreases items@.len() - i,
    {
        if i > 0 {
            out.append(sep);
        }
        out.append(items[i].as_str());
        proof {
            let now = all.take(i + 1);
            assert(now.drop_last() =~= all.take(i as int));
            assert(now.last() == items@[i as int]@);
            if i == 0 {
                assert(Seq::<char>::empty() + now[0] =~= now[0]);
            }
        }
        i = i + 1;
    }
    assert(all.take(items@.len() as int) =~= all);
    out
}

// ─── Prefixes, suffixes, substrings ──────────────────────────────────

/// Does `part` stand in `whole` at position `at`?
pub open spec fn stands_at(whole: Text, part: Text, at: int) -> bool {
    0 <= at && at + part.len() <= whole.len() && whole.subrange(at, at + part.len()) == part
}

/// Compares `part` with `whole` at position `at`.
pub fn found_at(whole: &Vec<char>, part: &Vec<char>, at: usize) -> (r: bool)
    requires
        at <= whole@.len(),
    ensures
        r == stands_at(whole@, part@, at as int),
{
    if part.len() > whole.len() - at {
        return false;
    }
    let mut i: usize = 0;
    while i < part.len()
        invariant
            i <= part@.len(),
            at + part.len() <= whole.len(),
            forall|j: int| 0 <= j < i ==> whole@[at + j] == part@[j],
        decreases part@.len() - i,
    {
        if whole[at + i] != part[i] {
            assert(whole@.subrange(at as int, at + part@.len())[i as int] != part@[i as int]);
            return false;
        }
        i = i + 1;
    }
    assert(whole@.subrange(at as int, at + part@.len()) =~= part@);
    true
}

/// Does `s` begin with `prefix`?
pub fn starts_with(s: &str, prefix: &str) -> (r: bool)
    ensures
        r == prefix@.is_prefix_of(s@),
{
    let whole = chars_of(s);
    let part = chars_of(prefix);
    found_at(&whole, &part, 0)
}

/// Does `s` end with `suffix`?
pub fn ends_with(s: &str, suffix: &str) -> (r: bool)
    ensures
        r == suffix@.is_suffix_of(s@),
{
    let whole = chars_of(s);
    let part = chars_of(suffix);
    if part.len() > whole.len() {
        return false;
    }
    found_at(&whole, &part, whole.len() - part.len())
}

/// `s` without `prefix` at its front; none if it does not begin with it.
pub open spec fn without_prefix(s: Text, prefix: Text) -> Option<Text> {
    if prefix.is_prefix_of(s) {
        Some(s.skip(prefix.len() as int))
    } else {
        None
    }
}

/// `str::strip_prefix`.
pub fn strip_prefix(s: &str, prefix: &str) -> (r: Option<String>)
    ensures
        r.deep_view() == without_prefix(s@, prefix@),
{
    if starts_with(s, prefix) {
        let whole = chars_of(s);
        let n: usize = chars_of(prefix).len();
        Some(piece(&whole, n, whole.len()))
    } else {
        None
    }
}

/// `s` without `suffix` at its end; none if it does not end with it.
pub open spec fn without_suffix(s: Text, suffix: Text) -> Option<Text> {
    if suffix.is_suffix_of(s) {
        Some(s.take(s.len() - suffix.len()))
    } else {
        None
    }
}

/// `str::strip_suffix`.
pub fn strip_suffix(s: &str, suffix: &str) -> (r: Option<String>)
    ensures
        r.deep_view() == without_suffix(s@, suffix@),
{
    if ends_with(s, suffix) {
        let whole = chars_of(s);
        let n: usize = chars_of(suffix).len();
        Some(piece(&whole, 0, whole.len() - n))
    } else {
        None
    }
}

/// Does `part` occur anywhere in `whole`?
pub open spec fn occurs(whole: Text, part: Text) -> bool {
    exists|at: int| #[trigger] stands_at(whole, part, at)
}

/// `str::contains` for a text.
pub fn contains(s: &str, part: &str) -> (r: bool)
    ensures
        r == occurs(s@, part@),
{
    let whole = chars_of(s);
    let needle = chars_of(part);
    let mut at: usize = 0;
    loop
        invariant
            at <= whole@.len(),
            whole@ == s@,
            needle@ == part@,
            forall|k: int| 0 <= k < at ==> !#[trigger] stands_at(s@, part@, k),
        decreases whole@.len() - at,
    {
        if found_at(&whole, &needle, at) {
            return true;
        }
        if at == whole.len() {
            return false;
        }
        at = at + 1;
    }
}

// ─── White space ─────────────────────────────────────────────────────

/// The characters with the Unicode property `White_Space`.
pub open spec fn is_space(c: char) -> bool {
    ||| '\u{9}' <= c <= '\u{d}'
    ||| c == ' '
    ||| c == '\u{85}'
    ||| c == '\u{a0}'
    ||| c == '\u{1680}'
    ||| '\u{2000}' <= c <= '\u{200a}'
    ||| c == '\u{2028}'
    ||| c == '\u{2029}'
    ||| c == '\u{202f}'
    ||| c == '\u{205f}'
    ||| c == '\u{3000}'
}

/// `char::is_whitespace`.
fn space(c: char) -> (r: bool)
    ensures
        r == is_space(c),
{
    ('\u{9}' <= c && c <= '\u{d}') || c == ' ' || c == '\u{85}' || c == '\u{a0}' || c == '\u{1680}' || (
    '\u{2000}' <= c && c <= '\u{200a}') || c == '\u{2028}' || c == '\u{2029}' || c == '\u{202f}' || c
        == '\u{205f}' || c == '\u{3000}'
}

/// `s` without the white space at its front.
pub open spec fn trimmed_start(s: Text) -> Text
    decreases s.len(),
{
    if s.len() > 0 && is_space(s[0]) {
        trimmed_start(s.skip(1))
    } else {
        s
    }
}

/// `s` without the white space at its end.
pub open spec fn trimmed_end(s: Text) -> Text
    decreases s.len(),
{
    if s.len() > 0 && is_space(s.last()) {
        trimmed_end(s.drop_last())
    } else {
        s
    }
}

/// `s` without the white space around it.
pub open spec fn trimmed(s: Text) -> Text {
    trimmed_end(trimmed_start(s))
}

/// `str::trim`.
pub fn trim(s: &str) -> (r: String)
    ensures
        r@ == trimmed(s@),
{
    let chars = chars_of(s);
    let mut from: usize = 0;
    assert(s@.skip(0) =~= s@);
    while from < chars.len() && space(chars[from])
        invariant
            from <= chars@.len(),
            chars@ == s@,
            trimmed_start(s@) == trimmed_start(s@.skip(from as int)),
        decreases chars@.len() - from,
    {
        assert(s@.skip(from as int).skip(1) =~= s@.skip(from + 1));
        from = from + 1;
    }
    let mut to: usize = chars.len();
    assert(s@.subrange(from as int, to as int) =~= s@.skip(from as int));
    while from < to && space(chars[to - 1])
        invariant
            from <= to <= chars@.len(),
            chars@ == s@,
            trimmed_end(trimmed_start(s@)) == trimmed_end(s@.subrange(from as int, to as int)),
        decreases to,
    {
        assert(s@.subrange(from as int, to as int).drop_last() =~= s@.subrange(
            from as int,
            to - 1,
        ));
        assert(s@.subrange(from as int, to as int).last() == s@[to - 1]);
        to = to - 1;
    }
    piece(&chars, from, to)
}

// ─── Lines ───────────────────────────────────────────────────────────

/// The position of the first `c` in `s`, or `s.len()` if there is none.
pub open spec fn first_index(s: Text, c: char) -> int
    decreases s.len(),
{
    if s.len() == 0 || s[0] == c {
        0
    } else {
        1 + first_index(s.skip(1), c)
    }
}

pub proof fn lemma_first_index(s: Text, c: char)
    ensures
        0 <= first_index(s, c) <= s.len(),
        first_index(s, c) < s.len() ==> s[first_index(s, c)] == c,
        forall|i: int| 0 <= i < first_index(s, c) ==> s[i] != c,
    decreases s.len(),
{
    if s.len() != 0 && s[0] != c {
        lemma_first_index(s.skip(1), c);
        let n = first_index(s, c);
        assert forall|i: int| 0 <= i < n implies s[i] != c by {
            if i > 0 {
                assert(s.skip(1)[i - 1] == s[i]);
            }
        }
    }
}

/// A position before which `c` does not stand, and at which it does or the
/// text ends, is the first one.
pub proof fn lemma_first_index_is(s: Text, c: char, n: int)
    requires
        0 <= n <= s.len(),
        n < s.len() ==> s[n] == c,
        forall|i: int| 0 <= i < n ==> s[i] != c,
    ensures
        first_index(s, c) == n,
{
    lemma_first_index(s, c);
    let m = first_index(s, c);
    if m < n {
        assert(s[m] != c);
    }
}

/// A line without the carriage return that came before its newline.
pub open spec fn without_return(line: Text) -> Text {
    if line.len() > 0 && line.last() == '\r' {
        line.drop_last()
    } else {
        line
    }
}

/// The lines of a text: each ends at a newline, which is not part of it, nor is
/// a carriage return directly before it; the newline of the last may be
/// missing.
pub open spec fn lines_of(s: Text) -> Seq<Text>
    decreases s.len(),
{
    let n = first_index(s, '\n');
    if s.len() == 0 {
        Seq::empty()
    } else if 0 <= n < s.len() {
        seq![without_return(s.take(n))] + lines_of(s.skip(n + 1))
    } else {
        seq![s]
    }
}

/// `str::lines`, collected.
pub fn lines(s: &str) -> (r: Vec<String>)
    ensures
        r.deep_view() == lines_of(s@),
{
    let chars = chars_of(s);
    let mut out: Vec<String> = Vec::new();
    let mut from: usize = 0;
    assert(s@.skip(0) =~= s@);
    assert(out.deep_view() + lines_of(s@) =~= lines_of(s@));
    while from < chars.len()
        invariant
            from <= chars@.len(),
            chars@ == s@,
            lines_of(s@) == out.deep_view() + lines_of(s@.skip(from as int)),
        decreases chars@.len() - from,
    {
        let mut to: usize = from;
        while to < chars.len() && chars[to] != '\n'
            invariant
                from <= to <= chars@.len(),
                chars@ == s@,
                forall|i: int| from <= i < to ==> s@[i] != '\n',
            decreases chars@.len() - to,
        {
            to = to + 1;
        }
        let ghost rest = s@.skip(from as int);
        let ghost before = out.deep_view();
        proof {
            assert forall|i: int| 0 <= i < to - from implies rest[i] != '\n' by {
                assert(rest[i] == s@[from + i]);
            }
            lemma_first_index_is(rest, '\n', to - from);
        }
        if to < chars.len() {
            let end: usize = if from < to && chars[to - 1] == '\r' {
                to - 1
            } else {
                to
            };
            let line = piece(&chars, from, end);
            assert(rest.take(to - from) =~= s@.subrange(from as int, to as int));
            assert(line@ =~= without_return(rest.take(to - from)));
            assert(rest.skip(to - from + 1) =~= s@.skip(to + 1));
            out.push(line);
            assert(out.deep_view() =~= before.push(line@));
            assert(before + (seq![line@] + lines_of(s@.skip(to + 1))) =~= before.push(line@)
                + lines_of(s@.skip(to + 1)));
            from = to + 1;
        } else {
            let line = piece(&chars, from, to);
            assert(rest =~= line@);
            out.push(line);
            assert(out.deep_view() =~= before.push(line@));
            from = to;
            assert(s@.skip(from as int) =~= Seq::empty());
            assert(before + seq![rest] =~= out.deep_view() + Seq::<Text>::empty());
        }
    }
    assert(s@.skip(from as int) =~= Seq::empty());
    assert(out.deep_view() + lines_of(Seq::empty()) =~= out.deep_view());
    out
}

/// Each item followed by a newline.
pub open spec fn with_newlines(items: Seq<Text>) -> Text
    decreases items.len(),
{
    if items.len() == 0 {
        Seq::empty()
    } else {
        with_newlines(items.drop_last()) + items.last() + "\n"@
    }
}

/// Does the text hold no newline?
pub open spec fn is_one_line(line: Text) -> bool {
    forall|i: int| 0 <= i < line.len() ==> line[i] != '\n'
}

/// Does none of the lines hold a newline?
pub open spec fn all_one_line(lines: Seq<Text>) -> bool {
    forall|i: int| 0 <= i < lines.len() ==> is_one_line(#[trigger] lines[i])
}

/// Is the text read back as it is where it is a line of a file: does it hold no
/// newline, and no carriage return at its end?
pub open spec fn is_plain(line: Text) -> bool {
    is_one_line(line) && (line.len() > 0 ==> line.last() != '\r')
}

/// Are all the lines plain?
pub open spec fn all_plain(lines: Seq<Text>) -> bool {
    forall|i: int| 0 <= i < lines.len() ==> is_plain(#[trigger] lines[i])
}

/// What lines are read as, where they are lines of a file.
pub open spec fn as_read(lines: Seq<Text>) -> Seq<Text> {
    lines.map_values(|line: Text| without_return(line))
}

pub proof fn lemma_plain_as_read(lines: Seq<Text>)
    requires
        all_plain(lines),
    ensures
        as_read(lines) == lines,
{
    assert forall|i: int| 0 <= i < lines.len() implies as_read(lines)[i] == lines[i] by {
        assert(is_plain(lines[i]));
    }
    assert(as_read(lines) =~= lines);
}

pub proof fn lemma_line_read(line: Text, rest: Text)
    requires
        is_one_line(line),
    ensures
        lines_of(line + "\n"@ + rest) == seq![without_return(line)] + lines_of(rest),
{
    reveal_strlit("\n");
    let whole = line + "\n"@ + rest;
    assert(whole[line.len() as int] == '\n');
    assert forall|i: int| 0 <= i < line.len() implies whole[i] != '\n' by {
        assert(whole[i] == line[i]);
    }
    lemma_first_index_is(whole, '\n', line.len() as int);
    assert(whole.take(line.len() as int) =~= line);
    assert(whole.skip(line.len() as int + 1) =~= rest);
}

pub proof fn lemma_line_first(line: Text, rest: Text)
    requires
        is_plain(line),
    ensures
        lines_of(line + "\n"@ + rest) == seq![line] + lines_of(rest),
{
    lemma_line_read(line, rest);
}

pub proof fn lemma_lines_first(items: Seq<Text>, rest: Text)
    requires
        all_one_line(items),
    ensures
        lines_of(with_newlines(items) + rest) == as_read(items) + lines_of(rest),
    decreases items.len(),
{
    if items.len() == 0 {
        assert(Seq::<char>::empty() + rest =~= rest);
        assert(as_read(items) + lines_of(rest) =~= lines_of(rest));
    } else {
        let front = items.drop_last();
        let last = items.last();
        let tail = last + "\n"@ + rest;
        assert(is_one_line(items[items.len() - 1]));
        lemma_lines_first(front, tail);
        lemma_line_read(last, rest);
        assert(with_newlines(items) + rest =~= with_newlines(front) + tail);
        assert(as_read(front) + (seq![without_return(last)] + lines_of(rest)) =~= as_read(items)
            + lines_of(rest));
    }
}

pub proof fn lemma_lines(items: Seq<Text>)
    requires
        all_one_line(items),
    ensures
        lines_of(with_newlines(items)) == as_read(items),
{
    lemma_lines_first(items, Seq::empty());
    assert(with_newlines(items) + Seq::<char>::empty() =~= with_newlines(items));
    assert(as_read(items) + lines_of(Seq::empty()) =~= as_read(items));
}

pub proof fn lemma_lines_are_lines(s: Text)
    ensures
        all_one_line(lines_of(s)),
    decreases s.len(),
{
    lemma_first_index(s, '\n');
    let n = first_index(s, '\n');
    if s.len() != 0 && n < s.len() {
        lemma_lines_are_lines(s.skip(n + 1));
        assert(is_one_line(s.take(n)));
        assert(is_one_line(without_return(s.take(n))));
    }
}

// ─── Replacement and splitting ───────────────────────────────────────

/// `s` with each occurrence of `part` replaced by `with`: occurrences are taken
/// from left to right and do not overlap.
pub open spec fn replaced(s: Text, part: Text, with: Text) -> Text
    decreases s.len(),
{
    if part.len() == 0 || s.len() < part.len() {
        s
    } else if part.is_prefix_of(s) {
        with + replaced(s.skip(part.len() as int), part, with)
    } else {
        seq![s[0]] + replaced(s.skip(1), part, with)
    }
}

/// `str::replace` for a text that is not empty.
pub fn replace(s: &str, part: &str, with: &str) -> (r: String)
    requires
        part@.len() > 0,
    ensures
        r@ == replaced(s@, part@, with@),
{
    let whole = chars_of(s);
    let needle = chars_of(part);
    let mut out = String::new();
    let mut at: usize = 0;
    assert(s@.skip(0) =~= s@);
    assert(Seq::<char>::empty() + replaced(s@, part@, with@) =~= replaced(s@, part@, with@));
    while at < whole.len()
        invariant
            at <= whole@.len(),
            whole@ == s@,
            needle@ == part@,
            part@.len() > 0,
            replaced(s@, part@, with@) == out@ + replaced(s@.skip(at as int), part@, with@),
        decreases whole@.len() - at,
    {
        let ghost rest = s@.skip(at as int);
        let ghost before = out@;
        if found_at(&whole, &needle, at) {
            assert(rest.subrange(0, part@.len() as int) =~= s@.subrange(
                at as int,
                at + part@.len(),
            ));
            out.append(with);
            assert(rest.skip(part@.len() as int) =~= s@.skip(at + part@.len()));
            assert(before + (with@ + replaced(s@.skip(at + part@.len()), part@, with@)) =~= (before
                + with@) + replaced(s@.skip(at + part@.len()), part@, with@));
            at = at + needle.len();
        } else {
            proof {
                if part@.is_prefix_of(rest) {
                    assert(s@.subrange(at as int, at + part@.len()) =~= rest.subrange(
                        0,
                        part@.len() as int,
                    ));
                }
            }
            out.push(whole[at]);
            proof {
                let tail = s@.skip(at + 1);
                assert(rest.skip(1) =~= tail);
                if rest.len() < part@.len() {
                    assert(replaced(tail, part@, with@) == tail);
                    assert(before + rest =~= before.push(rest[0]) + tail);
                } else {
                    assert(before + (seq![rest[0]] + replaced(tail, part@, with@)) =~= before.push(
                        rest[0],
                    ) + replaced(tail, part@, with@));
                }
            }
            at = at + 1;
        }
    }
    assert(s@.skip(at as int) =~= Seq::empty());
    assert(out@ + Seq::<char>::empty() =~= out@);
    out
}

/// The pieces of `s` between the occurrences of `c`; one more than there are
/// occurrences.
pub open spec fn split_at(s: Text, c: char) -> Seq<Text>
    decreases s.len(),
{
    let n = first_index(s, c);
    if 0 <= n < s.len() {
        seq![s.take(n)] + split_at(s.skip(n + 1), c)
    } else {
        seq![s]
    }
}

/// `str::split` for a character, collected.
pub fn split(s: &str, c: char) -> (r: Vec<String>)
    ensures
        r.deep_view() == split_at(s@, c),
{
    let chars = chars_of(s);
    let mut out: Vec<String> = Vec::new();
    let mut from: usize = 0;
    assert(s@.skip(0) =~= s@);
    assert(out.deep_view() + split_at(s@, c) =~= split_at(s@, c));
    loop
        invariant
            from <= chars@.len(),
            chars@ == s@,
            split_at(s@, c) == out.deep_view() + split_at(s@.skip(from as int), c),
        decreases chars@.len() - from,
    {
        let mut to: usize = from;
        while to < chars.len() && chars[to] != c
            invariant
                from <= to <= chars@.len(),
                chars@ == s@,
                forall|i: int| from <= i < to ==> s@[i] != c,
            decreases chars@.len() - to,
        {
            to = to + 1;
        }
        let ghost rest = s@.skip(from as int);
        let ghost before = out.deep_view();
        proof {
            assert forall|i: int| 0 <= i < to - from implies rest[i] != c by {
                assert(rest[i] == s@[from + i]);
            }
            lemma_first_index_is(rest, c, to - from);
        }
        let part = piece(&chars, from, to);
        assert(rest.take(to - from) =~= part@);
        out.push(part);
        assert(out.deep_view() =~= before.push(part@));
        if to == chars.len() {
            assert(rest =~= part@);
            assert(before + seq![rest] =~= out.deep_view());
            return out;
        }
        assert(rest.skip(to - from + 1) =~= s@.skip(to + 1));
        assert(before + (seq![part@] + split_at(s@.skip(to + 1), c)) =~= before.push(part@)
            + split_at(s@.skip(to + 1), c));
        from = to + 1;
    }
}

// ─── Numbers ─────────────────────────────────────────────────────────

/// The digit that stands for `d`.
pub open spec fn digit_char(d: int) -> char {
    (d + '0' as int) as char
}

/// The decimal form of a natural number.
pub open spec fn decimal(n: nat) -> Text
    decreases n,
{
    if n < 10 {
        seq![digit_char(n as int)]
    } else {
        decimal(n / 10).push(digit_char((n % 10) as int))
    }
}

/// The decimal form of `n`.
pub fn natural_text(n: u64) -> (r: String)
    ensures
        r@ == decimal(n as nat),
    decreases n,
{
    let d: u8 = (n % 10) as u8;
    let c: char = (d + 48u8) as char;
    if n < 10 {
        let mut out = String::new();
        out.push(c);
        assert(out@ =~= seq![digit_char(n as int)]);
        out
    } else {
        let mut out = natural_text(n / 10);
        out.push(c);
        out
    }
}

/// The decimal form of `n`.
pub fn number_text(n: usize) -> (r: String)
    ensures
        r@ == decimal(n as nat),
{
    natural_text(n as u64)
}

} // verus!
