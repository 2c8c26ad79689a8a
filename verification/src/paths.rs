//! Unix paths as text.
//!
//! A path is a string; its parts are what lies between the slashes. Repeated
//! slashes, a slash at the end and `.` parts that are not the first one carry
//! no meaning, so two paths are the same when their parts are.

use vstd::prelude::*;

use crate::text::{
    cat, cat3, chars_of, first_index, lemma_first_index_is, piece, same, split, split_at, Text,
};

verus! {

// ─── Parts ───────────────────────────────────────────────────────────

/// One part of a path.
pub enum Part {
    /// The slash at the front of an absolute path.
    Root,
    /// A `.` at the front of a relative path.
    Current,
    /// A `..`.
    Parent,
    /// Any other name.
    Name(Text),
}

/// One part of a path, as a value that a program can hold.
pub enum Component {
    Root,
    Current,
    Parent,
    Name(String),
}

impl View for Component {
    type V = Part;

    open spec fn view(&self) -> Part {
        match self {
            Component::Root => Part::Root,
            Component::Current => Part::Current,
            Component::Parent => Part::Parent,
            Component::Name(n) => Part::Name(n@),
        }
    }
}

impl DeepView for Component {
    type V = Part;

    open spec fn deep_view(&self) -> Part {
        self@
    }
}

/// The parts that the text between two slashes stands for: none or one.
pub open spec fn segment_parts(segment: Text) -> Seq<Part> {
    if segment.len() == 0 || segment == "."@ {
        Seq::empty()
    } else if segment == ".."@ {
        seq![Part::Parent]
    } else {
        seq![Part::Name(segment)]
    }
}

/// The parts of a row of segments.
pub open spec fn body_parts(segments: Seq<Text>) -> Seq<Part>
    decreases segments.len(),
{
    if segments.len() == 0 {
        Seq::empty()
    } else {
        body_parts(segments.drop_last()) + segment_parts(segments.last())
    }
}

/// The parts of a path.
pub open spec fn parts(path: Text) -> Seq<Part> {
    let segments = split_at(path, '/');
    if is_rooted(path) {
        seq![Part::Root] + body_parts(segments)
    } else if segments[0] == "."@ {
        seq![Part::Current] + body_parts(segments)
    } else {
        body_parts(segments)
    }
}

/// Does the path begin at the root?
pub open spec fn is_rooted(path: Text) -> bool {
    path.len() > 0 && path[0] == '/'
}

/// `Path::is_absolute`.
pub fn is_absolute(path: &str) -> (r: bool)
    ensures
        r == is_rooted(path@),
{
    let chars = chars_of(path);
    chars.len() > 0 && chars[0] == '/'
}

/// `Path::components`, collected.
pub fn components(path: &str) -> (r: Vec<Component>)
    ensures
        r.deep_view() == parts(path@),
{
    let segments = split(path, '/');
    let ghost all = segments.deep_view();
    assert(all.len() > 0);
    let mut out: Vec<Component> = Vec::new();
    if is_absolute(path) {
        out.push(Component::Root);
    } else if same(segments[0].as_str(), ".") {
        out.push(Component::Current);
    }
    let ghost front = out.deep_view();
    let mut i: usize = 0;
    assert(front + body_parts(all.take(0)) =~= front);
    while i < segments.len()
        invariant
            i <= segments@.len(),
            all == segments.deep_view(),
            out.deep_view() == front + body_parts(all.take(i as int)),
        decreases segments@.len() - i,
    {
        let segment = segments[i].as_str();
        let ghost before = out.deep_view();
        proof {
            assert(all.take(i + 1).drop_last() =~= all.take(i as int));
            assert(all.take(i + 1).last() == segment@);
        }
        if segment.is_empty() || same(segment, ".") {
            assert(before + Seq::<Part>::empty() =~= before);
        } else if same(segment, "..") {
            out.push(Component::Parent);
            assert(out.deep_view() =~= before + seq![Part::Parent]);
        } else {
            out.push(Component::Name(segment.to_owned()));
            assert(out.deep_view() =~= before + seq![Part::Name(segment@)]);
        }
        i = i + 1;
        assert(front + body_parts(all.take(i as int)) =~= (front + body_parts(all.take(i - 1)))
            + segment_parts(segment@));
    }
    assert(all.take(segments@.len() as int) =~= all);
    assert(Seq::<Part>::empty() + body_parts(all) =~= body_parts(all));
    out
}

/// Do the two components stand for the same part?
fn same_component(a: &Component, b: &Component) -> (r: bool)
    ensures
        r == (a@ == b@),
{
    match (a, b) {
        (Component::Root, Component::Root) => true,
        (Component::Current, Component::Current) => true,
        (Component::Parent, Component::Parent) => true,
        (Component::Name(x), Component::Name(y)) => same(x.as_str(), y.as_str()),
        _ => false,
    }
}

/// Are the components of `base` the first ones of `whole`?
fn leads(base: &Vec<Component>, whole: &Vec<Component>) -> (r: bool)
    ensures
        r == base.deep_view().is_prefix_of(whole.deep_view()),
{
    if base.len() > whole.len() {
        return false;
    }
    let mut i: usize = 0;
    while i < base.len()
        invariant
            i <= base@.len() <= whole@.len(),
            forall|j: int| 0 <= j < i ==> base@[j]@ == whole@[j]@,
        decreases base@.len() - i,
    {
        if !same_component(&base[i], &whole[i]) {
            assert(base.deep_view()[i as int] != whole.deep_view().subrange(
                0,
                base.deep_view().len() as int,
            )[i as int]);
            return false;
        }
        i = i + 1;
    }
    assert(base.deep_view() =~= whole.deep_view().subrange(0, base.deep_view().len() as int));
    true
}

/// Path equality: the same parts.
pub fn same_path(a: &str, b: &str) -> (r: bool)
    ensures
        r == (parts(a@) == parts(b@)),
{
    let x = components(a);
    let y = components(b);
    if x.len() != y.len() {
        assert(x.deep_view().len() != y.deep_view().len());
        return false;
    }
    assert(y.deep_view().subrange(0, x.deep_view().len() as int) =~= y.deep_view());
    leads(&x, &y)
}

// ─── Joining ─────────────────────────────────────────────────────────

/// `rel` under `base`; `rel` alone if it begins at the root.
pub open spec fn path_join(base: Text, rel: Text) -> Text {
    if is_rooted(rel) {
        rel
    } else if base.len() == 0 || base.last() == '/' {
        base + rel
    } else {
        base + "/"@ + rel
    }
}

/// `Path::join`.
pub fn join_path(base: &str, rel: &str) -> (r: String)
    ensures
        r@ == path_join(base@, rel@),
{
    let chars = chars_of(base);
    if is_absolute(rel) {
        rel.to_owned()
    } else if chars.len() == 0 || chars[chars.len() - 1] == '/' {
        cat(base, rel)
    } else {
        cat3(base, "/", rel)
    }
}

// ─── Cutting parts off ───────────────────────────────────────────────

/// The path without what carries no meaning at its end: slashes and `.` parts.
pub open spec fn trimmed_right(path: Text) -> Text
    decreases path.len(),
{
    if path.len() > 1 && path.last() == '/' {
        trimmed_right(path.drop_last())
    } else if path.len() > 1 && path.last() == '.' && path[path.len() - 2] == '/' {
        trimmed_right(path.drop_last())
    } else {
        path
    }
}

/// Where `trimmed_right` of the first `to` characters ends.
fn right_end(chars: &Vec<char>, to: usize) -> (r: usize)
    requires
        to <= chars@.len(),
    ensures
        r <= to,
        chars@.take(r as int) == trimmed_right(chars@.take(to as int)),
{
    let mut end: usize = to;
    while end > 1 && (chars[end - 1] == '/' || (chars[end - 1] == '.' && chars[end - 2] == '/'))
        invariant
            end <= to <= chars@.len(),
            trimmed_right(chars@.take(end as int)) == trimmed_right(chars@.take(to as int)),
        decreases end,
    {
        assert(chars@.take(end as int).drop_last() =~= chars@.take(end - 1));
        end = end - 1;
    }
    end
}

/// Where the last part of a trimmed path begins: behind its last slash.
pub open spec fn last_start(path: Text) -> int
    decreases path.len(),
{
    if path.len() == 0 || path.last() == '/' {
        path.len() as int
    } else {
        last_start(path.drop_last())
    }
}

/// The start of the last part of the first `to` characters.
fn last_part(chars: &Vec<char>, to: usize) -> (r: usize)
    requires
        to <= chars@.len(),
    ensures
        r <= to,
        r == last_start(chars@.take(to as int)),
{
    let mut at: usize = to;
    while at > 0 && chars[at - 1] != '/'
        invariant
            at <= to <= chars@.len(),
            last_start(chars@.take(at as int)) == last_start(chars@.take(to as int)),
        decreases at,
    {
        assert(chars@.take(at as int).drop_last() =~= chars@.take(at - 1));
        at = at - 1;
    }
    at
}

/// Has the trimmed path no part, or only the root?
pub open spec fn is_top(trimmed: Text) -> bool {
    trimmed.len() == 0 || (trimmed.len() == 1 && trimmed[0] == '/')
}

/// The path without its last part; none if it has no part but the root.
pub open spec fn parent_of(path: Text) -> Option<Text> {
    let t = trimmed_right(path);
    if is_top(t) {
        None
    } else {
        Some(trimmed_right(t.take(last_start(t))))
    }
}

/// `Path::parent`.
pub fn parent(path: &str) -> (r: Option<String>)
    ensures
        r.deep_view() == parent_of(path@),
{
    let chars = chars_of(path);
    assert(path@.take(path@.len() as int) =~= path@);
    let end = right_end(&chars, chars.len());
    if end == 0 || (end == 1 && chars[0] == '/') {
        None
    } else {
        let at = last_part(&chars, end);
        assert(path@.take(end as int).take(at as int) =~= path@.take(at as int));
        let cut = right_end(&chars, at);
        Some(piece(&chars, 0, cut))
    }
}

/// Trimming a path does not make it longer.
pub proof fn lemma_trimmed_right_len(path: Text)
    ensures
        trimmed_right(path).len() <= path.len(),
        trimmed_right(path).len() > 1 ==> trimmed_right(path).last() != '/',
    decreases path.len(),
{
    if path.len() > 1 && (path.last() == '/' || (path.last() == '.' && path[path.len() - 2]
        == '/')) {
        lemma_trimmed_right_len(path.drop_last());
    }
}

proof fn lemma_last_start_bound(path: Text)
    ensures
        0 <= last_start(path) <= path.len(),
    decreases path.len(),
{
    if path.len() > 0 && path.last() != '/' {
        lemma_last_start_bound(path.drop_last());
    }
}

/// A path is longer than its parent.
pub proof fn lemma_parent_shorter(path: Text)
    ensures
        parent_of(path) matches Some(up) ==> up.len() < path.len(),
{
    let t = trimmed_right(path);
    lemma_trimmed_right_len(path);
    lemma_last_start_bound(t);
    if !is_top(t) {
        assert(t.last() != '/');
        lemma_last_start_bound(t.drop_last());
        lemma_trimmed_right_len(t.take(last_start(t)));
    }
}

/// The name of the last part, if it is a name.
pub open spec fn file_name_of(path: Text) -> Option<Text> {
    let t = trimmed_right(path);
    let name = t.skip(last_start(t));
    if is_top(t) || name == "."@ || name == ".."@ {
        None
    } else {
        Some(name)
    }
}

/// `Path::file_name`.
pub fn file_name(path: &str) -> (r: Option<String>)
    ensures
        r.deep_view() == file_name_of(path@),
{
    let chars = chars_of(path);
    assert(path@.take(path@.len() as int) =~= path@);
    let end = right_end(&chars, chars.len());
    if end == 0 || (end == 1 && chars[0] == '/') {
        return None;
    }
    let at = last_part(&chars, end);
    let name = piece(&chars, at, end);
    assert(path@.take(end as int).skip(at as int) =~= name@);
    if same(name.as_str(), ".") || same(name.as_str(), "..") {
        None
    } else {
        Some(name)
    }
}

/// The path without what carries no meaning at its front, read behind the
/// first part: slashes and `.` parts.
pub open spec fn trimmed_left(path: Text) -> Text
    decreases path.len(),
{
    if path.len() > 0 && path[0] == '/' {
        trimmed_left(path.skip(1))
    } else if path.len() > 0 && path[0] == '.' && (path.len() == 1 || path[1] == '/') {
        trimmed_left(path.skip(1))
    } else {
        path
    }
}

/// Where `trimmed_left` of the text from `from` on begins.
fn left_end(chars: &Vec<char>, from: usize) -> (r: usize)
    requires
        from <= chars@.len(),
    ensures
        from <= r <= chars@.len(),
        chars@.skip(r as int) == trimmed_left(chars@.skip(from as int)),
{
    let mut at: usize = from;
    while at < chars.len() && (chars[at] == '/' || (chars[at] == '.' && (at + 1 == chars.len()
        || chars[at + 1] == '/')))
        invariant
            from <= at <= chars@.len(),
            trimmed_left(chars@.skip(at as int)) == trimmed_left(chars@.skip(from as int)),
        decreases chars@.len() - at,
    {
        assert(chars@.skip(at as int).skip(1) =~= chars@.skip(at + 1));
        at = at + 1;
    }
    at
}

/// What is left of a path behind its first part when `count` more parts are
/// cut off.
pub open spec fn body_after(path: Text, count: nat) -> Text
    decreases count,
{
    let t = trimmed_left(path);
    if count == 0 {
        trimmed_right(t)
    } else {
        body_after(t.skip(first_index(t, '/')), (count - 1) as nat)
    }
}

/// What is left of a path when its first `count` parts are cut off.
pub open spec fn path_after(path: Text, count: nat) -> Text {
    if count == 0 {
        trimmed_right(path)
    } else if is_rooted(path) || split_at(path, '/')[0] == "."@ {
        body_after(path.skip(1), (count - 1) as nat)
    } else {
        body_after(path, count)
    }
}

/// The path relative to `base`; none if `base` does not lead to it.
pub open spec fn relative_to(path: Text, base: Text) -> Option<Text> {
    if parts(base).is_prefix_of(parts(path)) {
        Some(path_after(path, parts(base).len()))
    } else {
        None
    }
}

/// `body_after` on the text from `from` on.
fn cut_body(chars: &Vec<char>, from: usize, count: usize) -> (r: String)
    requires
        from <= chars@.len(),
    ensures
        r@ == body_after(chars@.skip(from as int), count as nat),
    decreases count,
{
    let at = left_end(chars, from);
    let ghost t = chars@.skip(at as int);
    if count == 0 {
        let rest = piece(chars, at, chars.len());
        let body = chars_of(rest.as_str());
        assert(body@ =~= t);
        assert(body@.take(body@.len() as int) =~= body@);
        let end = right_end(&body, body.len());
        piece(&body, 0, end)
    } else {
        let mut to: usize = at;
        while to < chars.len() && chars[to] != '/'
            invariant
                at <= to <= chars@.len(),
                forall|i: int| at <= i < to ==> chars@[i] != '/',
            decreases chars@.len() - to,
        {
            to = to + 1;
        }
        proof {
            assert forall|i: int| 0 <= i < to - at implies t[i] != '/' by {
                assert(t[i] == chars@[at + i]);
            }
            lemma_first_index_is(t, '/', to - at);
            assert(t.skip(to - at) =~= chars@.skip(to as int));
        }
        cut_body(chars, to, count - 1)
    }
}

/// `Path::strip_prefix`.
pub fn relative(path: &str, base: &str) -> (r: Option<String>)
    ensures
        r.deep_view() == relative_to(path@, base@),
{
    let whole = components(path);
    let lead = components(base);
    if !leads(&lead, &whole) {
        return None;
    }
    let count: usize = lead.len();
    let chars = chars_of(path);
    if count == 0 {
        assert(path@.take(path@.len() as int) =~= path@);
        let end = right_end(&chars, chars.len());
        return Some(piece(&chars, 0, end));
    }
    let segments = split(path, '/');
    assert(segments.deep_view().len() > 0);
    if is_absolute(path) || same(segments[0].as_str(), ".") {
        proof {
            if !is_rooted(path@) {
                lemma_dot_first(path@);
            }
        }
        Some(cut_body(&chars, 1, count - 1))
    } else {
        assert(path@.skip(0) =~= path@);
        Some(cut_body(&chars, 0, count))
    }
}

/// A path whose first segment is `.` is not empty.
proof fn lemma_dot_first(path: Text)
    requires
        split_at(path, '/')[0] == "."@,
    ensures
        path.len() > 0,
{
    reveal_strlit(".");
    if path.len() == 0 {
        assert(split_at(path, '/')[0] == path);
    }
}

// ─── Normalizing ─────────────────────────────────────────────────────

/// `acc` with the part `p` taken into account: a `..` removes the last part, a
/// `.` changes nothing, any other part is appended.
pub open spec fn with_part(acc: Text, p: Part) -> Text {
    match p {
        Part::Root => path_join(acc, "/"@),
        Part::Current => acc,
        Part::Parent => match parent_of(acc) {
            Some(up) => up,
            None => acc,
        },
        Part::Name(n) => path_join(acc, n),
    }
}

/// The path that the parts lead to.
pub open spec fn walked(ps: Seq<Part>) -> Text
    decreases ps.len(),
{
    if ps.len() == 0 {
        Seq::empty()
    } else {
        with_part(walked(ps.drop_last()), ps.last())
    }
}

/// Normalize a path by resolving `.` and `..` components without filesystem access.
pub fn normalize_path(path: &str) -> (r: String)
    ensures
        r@ == walked(parts(path@)),
{
    let steps = components(path);
    let ghost all = steps.deep_view();
    let mut out = String::new();
    let mut i: usize = 0;
    assert(out@ =~= Seq::<char>::empty());
    while i < steps.len()
        invariant
            i <= steps@.len(),
            all == steps.deep_view(),
            out@ == walked(all.take(i as int)),
        decreases steps@.len() - i,
    {
        proof {
            assert(all.take(i + 1).drop_last() =~= all.take(i as int));
            assert(all.take(i + 1).last() == steps@[i as int]@);
        }
        match &steps[i] {
            Component::Root => {
                out = join_path(out.as_str(), "/");
            },
            Component::Current => {},
            Component::Parent => {
                if let Some(up) = parent(out.as_str()) {
                    out = up;
                }
            },
            Component::Name(n) => {
                out = join_path(out.as_str(), n.as_str());
            },
        }
        i = i + 1;
    }
    assert(all.take(steps@.len() as int) =~= all);
    out
}

} // verus!
