//! The frontmatter of a TASK.md: `key: value` lines between two lines of three
//! hyphens.

use vstd::prelude::*;

use crate::text::{
    first_index, join, joined, lemma_first_index_is, lines, lines_of, piece, same, trim, trimmed,
    Text,
};

verus! {

/// The kind of a task that tells none.
pub const DEFAULT_KIND: &'static str = "todo";

/// The status of a task that tells none.
pub const DEFAULT_STATUS: &'static str = "active";

/// Is the line a fence of the frontmatter?
pub open spec fn is_fence(line: Text) -> bool {
    trimmed(line) == "---"@
}

/// The position of the first fence among the lines from the `i`-th on, or their
/// number.
pub open spec fn next_fence(all: Seq<Text>, i: int) -> int
    decreases all.len() - i,
{
    if i >= all.len() || is_fence(all[i]) {
        i
    } else {
        next_fence(all, i + 1)
    }
}

/// The key and the value of a line: what stands before its first colon and
/// behind it.
pub open spec fn pair_in(line: Text) -> Option<(Text, Text)> {
    let at = first_index(line, ':');
    if at < line.len() {
        Some((trimmed(line.take(at)), trimmed(line.skip(at + 1))))
    } else {
        None
    }
}

/// The pairs of the lines; a line without a colon gives none.
pub open spec fn pairs_in(all: Seq<Text>) -> Seq<(Text, Text)>
    decreases all.len(),
{
    if all.len() == 0 {
        Seq::empty()
    } else {
        match pair_in(all.last()) {
            Some(pair) => pairs_in(all.drop_last()).push(pair),
            None => pairs_in(all.drop_last()),
        }
    }
}

/// The pairs and the body of a document. One that does not begin with a fence,
/// or has no second one, has no pairs and is all body.
pub open spec fn frontmatter_of(content: Text) -> (Seq<(Text, Text)>, Text) {
    let all = lines_of(content);
    let end = next_fence(all, 1);
    if all.len() > 0 && is_fence(all[0]) && end < all.len() {
        (pairs_in(all.subrange(1, end)), joined(all.skip(end + 1), "\n"@))
    } else {
        (Seq::empty(), content)
    }
}

/// The value of a key: that of its first pair.
pub open spec fn value_for(pairs: Seq<(Text, Text)>, key: Text) -> Option<Text>
    decreases pairs.len(),
{
    if pairs.len() == 0 {
        None
    } else if pairs[0].0 == key {
        Some(pairs[0].1)
    } else {
        value_for(pairs.skip(1), key)
    }
}

/// Is the line a fence?
fn fence(line: &str) -> (r: bool)
    ensures
        r == is_fence(line@),
{
    let text = trim(line);
    same(text.as_str(), "---")
}

/// The key and the value of a line.
fn pair_of(line: &str) -> (r: Option<(String, String)>)
    ensures
        r.deep_view() == pair_in(line@),
{
    let chars = crate::text::chars_of(line);
    let mut at: usize = 0;
    while at < chars.len() && chars[at] != ':'
        invariant
            at <= chars@.len(),
            chars@ == line@,
            forall|j: int| 0 <= j < at ==> line@[j] != ':',
        decreases chars@.len() - at,
    {
        at = at + 1;
    }
    proof {
        lemma_first_index_is(line@, ':', at as int);
    }
    if at == chars.len() {
        return None;
    }
    let key = piece(&chars, 0, at);
    let value = piece(&chars, at + 1, chars.len());
    assert(key@ =~= line@.take(at as int));
    assert(value@ =~= line@.skip(at + 1));
    Some((trim(key.as_str()), trim(value.as_str())))
}

/// The pairs and the body of a document.
pub fn parse_frontmatter(content: &str) -> (r: (Vec<(String, String)>, String))
    ensures
        (r.0.deep_view(), r.1@) == frontmatter_of(content@),
{
    let all = lines(content);
    let ghost views = all.deep_view();
    assert(views.len() == all@.len());
    let mut pairs: Vec<(String, String)> = Vec::new();
    assert(pairs.deep_view() =~= Seq::<(Text, Text)>::empty());
    if all.len() == 0 {
        return (pairs, content.to_owned());
    }
    assert(views[0] == all@[0]@);
    if !fence(all[0].as_str()) {
        return (pairs, content.to_owned());
    }
    let mut end: usize = 1;
    while end < all.len() && !fence(all[end].as_str())
        invariant
            1 <= end <= all@.len(),
            views == all.deep_view(),
            views.len() == all@.len(),
            next_fence(views, 1) == next_fence(views, end as int),
        decreases all@.len() - end,
    {
        assert(views[end as int] == all@[end as int]@);
        end = end + 1;
    }
    if end == all.len() {
        return (pairs, content.to_owned());
    }
    assert(views[end as int] == all@[end as int]@);
    let ghost block = views.subrange(1, end as int);
    let mut i: usize = 1;
    assert(block.take(0) =~= Seq::empty());
    while i < end
        invariant
            1 <= i <= end < all@.len(),
            views == all.deep_view(),
            views.len() == all@.len(),
            block == views.subrange(1, end as int),
            pairs.deep_view() == pairs_in(block.take(i - 1)),
        decreases end - i,
    {
        let ghost before = pairs.deep_view();
        proof {
            assert(block.take(i as int).drop_last() =~= block.take(i - 1));
            assert(block.take(i as int).last() == all@[i as int]@);
        }
        if let Some(pair) = pair_of(all[i].as_str()) {
            let ghost view = pair.deep_view();
            pairs.push(pair);
            assert(pairs.deep_view() =~= before.push(view));
        }
        i = i + 1;
    }
    assert(block.take(end - 1) =~= block);
    let mut rest: Vec<String> = Vec::new();
    let mut k: usize = end + 1;
    while k < all.len()
        invariant
            end + 1 <= k <= all@.len(),
            rest@.len() == k - (end + 1),
            forall|j: int| 0 <= j < rest@.len() ==> (#[trigger] rest@[j])@ == all@[end + 1 + j]@,
        decreases all@.len() - k,
    {
        rest.push(all[k].clone());
        k = k + 1;
    }
    assert(rest.deep_view() =~= views.skip(end + 1));
    (pairs, join(&rest, "\n"))
}

/// The pairs of a frontmatter, looked up by key.
pub struct FrontmatterMap<'a>(pub &'a Vec<(String, String)>);

impl<'a> FrontmatterMap<'a> {
    /// The value of a key.
    pub fn get(&self, key: &str) -> (r: Option<String>)
        ensures
            r.deep_view() == value_for(self.0.deep_view(), key@),
    {
        let ghost all = self.0.deep_view();
        let mut i: usize = 0;
        assert(all.skip(0) =~= all);
        while i < self.0.len()
            invariant
                i <= self.0@.len(),
                all == self.0.deep_view(),
                value_for(all, key@) == value_for(all.skip(i as int), key@),
            decreases self.0@.len() - i,
        {
            proof {
                assert(all.skip(i as int)[0] == self.0@[i as int].deep_view());
                assert(all.skip(i as int).skip(1) =~= all.skip(i + 1));
            }
            if same(self.0[i].0.as_str(), key) {
                return Some(self.0[i].1.clone());
            }
            i = i + 1;
        }
        None
    }
}

} // verus!
