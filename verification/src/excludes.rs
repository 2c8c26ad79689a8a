//! The overlay sections in a repository's exclude file.
//!
//! Each checkout has a section of its own, between two marker lines. The section
//! of the main checkout has plain markers, that of a linked worktree has markers
//! that end in its name.

use vstd::prelude::*;

use crate::text::{
    all_one_line, all_plain, as_read, cat, is_one_line, is_plain, join, joined, lemma_lines,
    lemma_lines_are_lines, lemma_lines_first, lemma_plain_as_read, lines, lines_of, same,
    starts_with, with_newlines, without_return, Text,
};

verus! {

/// The line that a section begins with.
pub open spec fn start_marker(worktree: Option<Text>) -> Text {
    match worktree {
        None => "# subcontext-overlay-start"@,
        Some(name) => "# subcontext-overlay-start:"@ + name,
    }
}

/// The line that a section ends with.
pub open spec fn end_marker(worktree: Option<Text>) -> Text {
    match worktree {
        None => "# subcontext-overlay-end"@,
        Some(name) => "# subcontext-overlay-end:"@ + name,
    }
}

/// Section markers for the exclude file. Untagged for main, tagged for worktrees.
pub fn exclude_markers(worktree_name: &Option<String>) -> (r: (String, String))
    ensures
        r.0@ == start_marker(worktree_name.deep_view()),
        r.1@ == end_marker(worktree_name.deep_view()),
{
    match worktree_name {
        None => (
            "# subcontext-overlay-start".to_owned(),
            "# subcontext-overlay-end".to_owned(),
        ),
        Some(name) => (
            cat("# subcontext-overlay-start:", name.as_str()),
            cat("# subcontext-overlay-end:", name.as_str()),
        ),
    }
}

/// Does a section of `worktree` begin at this line, of any checkout where it is
/// none?
pub open spec fn is_start(line: Text, worktree: Option<Option<Text>>) -> bool {
    match worktree {
        Some(name) => line == start_marker(name),
        None => "# subcontext-overlay-start"@.is_prefix_of(line),
    }
}

/// Does one end at this line?
pub open spec fn is_end(line: Text, worktree: Option<Option<Text>>) -> bool {
    match worktree {
        Some(name) => line == end_marker(name),
        None => "# subcontext-overlay-end"@.is_prefix_of(line),
    }
}

/// Is the place behind the last of `lines` inside a section of `which`: of the
/// one checkout, or of any where `which` is none?
pub open spec fn inside(lines: Seq<Text>, which: Option<Option<Text>>) -> bool
    decreases lines.len(),
{
    if lines.len() == 0 {
        false
    } else if is_start(lines.last(), which) {
        true
    } else if is_end(lines.last(), which) {
        false
    } else {
        inside(lines.drop_last(), which)
    }
}

/// The lines outside the sections of `which`, without their markers.
pub open spec fn kept(lines: Seq<Text>, which: Option<Option<Text>>) -> Seq<Text>
    decreases lines.len(),
{
    if lines.len() == 0 {
        Seq::empty()
    } else {
        let before = kept(lines.drop_last(), which);
        let line = lines.last();
        if is_start(line, which) || is_end(line, which) || inside(lines.drop_last(), which) {
            before
        } else {
            before.push(line)
        }
    }
}

/// A section that holds the lines `files`; no section where there are none.
pub open spec fn section(worktree: Option<Text>, files: Seq<Text>) -> Text {
    if files.len() == 0 {
        Seq::empty()
    } else {
        start_marker(worktree) + "\n"@ + with_newlines(files) + end_marker(worktree) + "\n"@
    }
}

/// Lines as a text that ends with a newline, unless it is empty.
pub open spec fn closed_lines(items: Seq<Text>) -> Text {
    let text = joined(items, "\n"@);
    if text.len() > 0 && text.last() != '\n' {
        text + "\n"@
    } else {
        text
    }
}

/// The exclude file `existing` with the section of one checkout replaced.
pub open spec fn synced(existing: Text, worktree: Option<Text>, files: Seq<Text>) -> Text {
    closed_lines(kept(lines_of(existing), Some(worktree))) + section(worktree, files)
}

/// The exclude file `existing` without any overlay section.
pub open spec fn cleaned(existing: Text) -> Text {
    joined(kept(lines_of(existing), None), "\n"@) + "\n"@
}

/// The lines outside the sections of one checkout.
fn outside_section(existing: &str, worktree_name: &Option<String>) -> (r: Vec<String>)
    ensures
        r.deep_view() == kept(lines_of(existing@), Some(worktree_name.deep_view())),
{
    let (start, end) = exclude_markers(worktree_name);
    let all = lines(existing);
    let ghost views = all.deep_view();
    let ghost which = Some(worktree_name.deep_view());
    let mut out: Vec<String> = Vec::new();
    let mut in_our_section = false;
    let mut i: usize = 0;
    assert(out.deep_view() =~= kept(views.take(0), which));
    while i < all.len()
        invariant
            i <= all@.len(),
            views == all.deep_view(),
            which == Some(worktree_name.deep_view()),
            start@ == start_marker(worktree_name.deep_view()),
            end@ == end_marker(worktree_name.deep_view()),
            out.deep_view() == kept(views.take(i as int), which),
            in_our_section == inside(views.take(i as int), which),
        decreases all@.len() - i,
    {
        let line = all[i].as_str();
        let ghost before = out.deep_view();
        proof {
            assert(views.take(i + 1).drop_last() =~= views.take(i as int));
            assert(views.take(i + 1).last() == line@);
        }
        if same(line, start.as_str()) {
            in_our_section = true;
        } else if same(line, end.as_str()) {
            in_our_section = false;
        } else if !in_our_section {
            out.push(all[i].clone());
            assert(out.deep_view() =~= before.push(line@));
        }
        i = i + 1;
    }
    assert(views.take(all@.len() as int) =~= views);
    out
}

/// The new content of an exclude file: what it held outside the section of the
/// checkout, then that section with `files`.
pub fn excludes_with(existing: &str, worktree_name: &Option<String>, files: &Vec<String>) -> (r:
    String)
    ensures
        r@ == synced(existing@, worktree_name.deep_view(), files.deep_view()),
{
    let (start, end) = exclude_markers(worktree_name);
    let lines = outside_section(existing, worktree_name);
    let ghost name = worktree_name.deep_view();
    let mut content = join(&lines, "\n");
    let chars = crate::text::chars_of(content.as_str());
    if chars.len() > 0 && chars[chars.len() - 1] != '\n' {
        content.append("\n");
    }
    let ghost base = content@;
    if files.len() > 0 {
        content.append(start.as_str());
        content.append("\n");
        let ghost head = content@;
        let ghost all = files.deep_view();
        let mut i: usize = 0;
        assert(head + with_newlines(all.take(0)) =~= head);
        while i < files.len()
            invariant
                i <= files@.len(),
                all == files.deep_view(),
                content@ == head + with_newlines(all.take(i as int)),
            decreases files@.len() - i,
        {
            proof {
                assert(all.take(i + 1).drop_last() =~= all.take(i as int));
                assert(all.take(i + 1).last() == files@[i as int]@);
            }
            content.append(files[i].as_str());
            content.append("\n");
            i = i + 1;
            assert(content@ =~= head + with_newlines(all.take(i as int)));
        }
        assert(all.take(files@.len() as int) =~= all);
        content.append(end.as_str());
        content.append("\n");
        assert(content@ =~= base + section(name, all));
    } else {
        assert(base + section(name, files.deep_view()) =~= base);
    }
    content
}

/// The content of an exclude file without any overlay section.
pub fn clean_excludes(existing: &str) -> (r: String)
    ensures
        r@ == cleaned(existing@),
{
    let all = lines(existing);
    let ghost views = all.deep_view();
    let mut out: Vec<String> = Vec::new();
    let mut in_section = false;
    let mut i: usize = 0;
    assert(out.deep_view() =~= kept(views.take(0), None));
    while i < all.len()
        invariant
            i <= all@.len(),
            views == all.deep_view(),
            out.deep_view() == kept(views.take(i as int), None),
            in_section == inside(views.take(i as int), None),
        decreases all@.len() - i,
    {
        let line = all[i].as_str();
        let ghost before = out.deep_view();
        proof {
            assert(views.take(i + 1).drop_last() =~= views.take(i as int));
            assert(views.take(i + 1).last() == line@);
        }
        if starts_with(line, "# subcontext-overlay-start") {
            in_section = true;
        } else if starts_with(line, "# subcontext-overlay-end") {
            in_section = false;
        } else if !in_section {
            out.push(all[i].clone());
            assert(out.deep_view() =~= before.push(line@));
        }
        i = i + 1;
    }
    assert(views.take(all@.len() as int) =~= views);
    join(&out, "\n").concat("\n")
}

// ─── Laws ────────────────────────────────────────────────────────────

/// Is none of the lines a marker of `which`?
pub open spec fn unmarked(lines: Seq<Text>, which: Option<Option<Text>>) -> bool {
    forall|i: int|
        0 <= i < lines.len() ==> !is_start(#[trigger] lines[i], which) && !is_end(lines[i], which)
}

proof fn lemma_joined_closed(items: Seq<Text>)
    requires
        items.len() > 0,
    ensures
        joined(items, "\n"@) + "\n"@ == with_newlines(items),
    decreases items.len(),
{
    if items.len() == 1 {
        assert(items.drop_last() =~= Seq::empty());
        assert(with_newlines(items.drop_last()) + items.last() + "\n"@ =~= items[0] + "\n"@);
    } else {
        lemma_joined_closed(items.drop_last());
    }
}

proof fn lemma_closed_lines(items: Seq<Text>)
    requires
        all_plain(items),
        items.len() > 0 ==> items.last().len() > 0,
    ensures
        closed_lines(items) == with_newlines(items),
{
    if items.len() > 0 {
        let text = joined(items, "\n"@);
        lemma_joined_closed(items);
        assert(is_plain(items[items.len() - 1]));
        assert(text.last() == items.last().last());
    }
}

proof fn lemma_kept_unmarked(lines: Seq<Text>, which: Option<Option<Text>>)
    ensures
        unmarked(kept(lines, which), which),
        forall|i: int|
            0 <= i < kept(lines, which).len() ==> lines.contains(#[trigger] kept(lines, which)[i]),
    decreases lines.len(),
{
    if lines.len() > 0 {
        let front = lines.drop_last();
        lemma_kept_unmarked(front, which);
        assert forall|i: int| 0 <= i < kept(lines, which).len() implies lines.contains(
            #[trigger] kept(lines, which)[i],
        ) by {
            let line = kept(lines, which)[i];
            if i < kept(front, which).len() {
                assert(front.contains(kept(front, which)[i]));
                let j = front.index_of(line);
                assert(lines[j] == line);
            } else {
                assert(lines[lines.len() - 1] == line);
            }
        }
    }
}

proof fn lemma_unmarked_kept(lines: Seq<Text>, which: Option<Option<Text>>)
    requires
        unmarked(lines, which),
    ensures
        kept(lines, which) == lines,
        !inside(lines, which),
    decreases lines.len(),
{
    if lines.len() > 0 {
        assert(!is_start(lines[lines.len() - 1], which));
        lemma_unmarked_kept(lines.drop_last(), which);
        assert(lines.drop_last().push(lines.last()) =~= lines);
    } else {
        assert(kept(lines, which) =~= lines);
    }
}

proof fn lemma_kept_splits(a: Seq<Text>, b: Seq<Text>, which: Option<Option<Text>>)
    requires
        !inside(a, which),
    ensures
        kept(a + b, which) == kept(a, which) + kept(b, which),
        inside(a + b, which) == inside(b, which),
    decreases b.len(),
{
    if b.len() == 0 {
        assert(a + b =~= a);
        assert(kept(a, which) + kept(b, which) =~= kept(a, which));
    } else {
        lemma_kept_splits(a, b.drop_last(), which);
        assert((a + b).drop_last() =~= a + b.drop_last());
        assert((a + b).last() == b.last());
        assert(kept(a + b, which) =~= kept(a, which) + kept(b, which));
    }
}

/// Does none of the lines end a section of `which`?
pub open spec fn unended(lines: Seq<Text>, which: Option<Option<Text>>) -> bool {
    forall|i: int| 0 <= i < lines.len() ==> !is_end(#[trigger] lines[i], which)
}

proof fn lemma_inside_section(files: Seq<Text>, start: Text, which: Option<Option<Text>>)
    requires
        is_start(start, which),
        unended(files, which),
    ensures
        kept(seq![start] + files, which) == Seq::<Text>::empty(),
        inside(seq![start] + files, which),
    decreases files.len(),
{
    let all = seq![start] + files;
    if files.len() == 0 {
        assert(all.drop_last().len() == 0);
        assert(all.last() == start);
        assert(kept(all.drop_last(), which) =~= Seq::empty());
    } else {
        lemma_inside_section(files.drop_last(), start, which);
        assert(all.drop_last() =~= seq![start] + files.drop_last());
        assert(all.last() == files[files.len() - 1]);
    }
}

/// The lines of a section.
spec fn section_lines(worktree: Option<Text>, files: Seq<Text>) -> Seq<Text> {
    if files.len() == 0 {
        Seq::empty()
    } else {
        seq![start_marker(worktree)] + files + seq![end_marker(worktree)]
    }
}

/// A worktree whose name is plain has plain markers.
pub open spec fn plain_name(worktree: Option<Text>) -> bool {
    match worktree {
        None => true,
        Some(name) => is_plain(name),
    }
}

proof fn lemma_markers(worktree: Option<Text>)
    requires
        plain_name(worktree),
    ensures
        is_plain(start_marker(worktree)),
        is_plain(end_marker(worktree)),
        start_marker(worktree) != end_marker(worktree),
        is_start(start_marker(worktree), None),
        is_end(end_marker(worktree), None),
        !is_start(end_marker(worktree), None),
{
    reveal_strlit("# subcontext-overlay-start");
    reveal_strlit("# subcontext-overlay-end");
    reveal_strlit("# subcontext-overlay-start:");
    reveal_strlit("# subcontext-overlay-end:");
    let start = start_marker(worktree);
    let end = end_marker(worktree);
    assert(start[21] == 's');
    assert(end[21] == 'e');
    assert("# subcontext-overlay-start"@ =~= start.subrange(0, 26));
    assert("# subcontext-overlay-end"@ =~= end.subrange(0, 24));
    if "# subcontext-overlay-start"@.is_prefix_of(end) {
        assert("# subcontext-overlay-start"@[21] == end[21]);
    }
}

proof fn lemma_section(worktree: Option<Text>, files: Seq<Text>, which: Option<Option<Text>>)
    requires
        plain_name(worktree),
        all_one_line(files),
        which == Some(worktree) || which is None,
        unended(as_read(files), which),
    ensures
        section(worktree, files) == with_newlines(section_lines(worktree, files)),
        all_one_line(section_lines(worktree, files)),
        as_read(section_lines(worktree, files)) == section_lines(worktree, as_read(files)),
        kept(section_lines(worktree, as_read(files)), which) == Seq::<Text>::empty(),
        !inside(section_lines(worktree, as_read(files)), which),
{
    lemma_markers(worktree);
    let start = start_marker(worktree);
    let end = end_marker(worktree);
    let all = section_lines(worktree, files);
    let read = section_lines(worktree, as_read(files));
    if files.len() > 0 {
        let head = seq![start] + files;
        assert(all.drop_last() =~= head);
        assert(all.last() == end);
        lemma_with_newlines_front(start, files);
        assert(section(worktree, files) =~= with_newlines(head) + end + "\n"@);
        assert forall|i: int| 0 <= i < all.len() implies is_one_line(#[trigger] all[i]) by {
            if 0 < i < all.len() - 1 {
                assert(all[i] == files[i - 1]);
            }
        }
        let front = seq![start] + as_read(files);
        assert(read.drop_last() =~= front);
        assert(read.last() == end);
        lemma_inside_section(as_read(files), start, which);
    }
    assert(as_read(all) =~= read);
}

proof fn lemma_with_newlines_front(first: Text, items: Seq<Text>)
    ensures
        with_newlines(seq![first] + items) == first + "\n"@ + with_newlines(items),
    decreases items.len(),
{
    let all = seq![first] + items;
    if items.len() == 0 {
        assert(all.drop_last().len() == 0);
        assert(all.last() == first);
        assert(with_newlines(all.drop_last()) =~= Seq::<char>::empty());
        assert(with_newlines(all) =~= first + "\n"@ + with_newlines(items));
    } else {
        lemma_with_newlines_front(first, items.drop_last());
        assert(all.drop_last() =~= seq![first] + items.drop_last());
        assert(with_newlines(all) =~= first + "\n"@ + with_newlines(items));
    }
}

/// An exclude file in which, outside the section of the checkout, no line ends in
/// a carriage return as it is read, and the last is not blank.
pub open spec fn is_tidy(existing: Text, worktree: Option<Text>) -> bool {
    let others = kept(lines_of(existing), Some(worktree));
    &&& forall|i: int|
        0 <= i < others.len() && (#[trigger] others[i]).len() > 0 ==> others[i].last() != '\r'
    &&& others.len() > 0 ==> others.last().len() > 0
}

proof fn lemma_kept_are_lines(existing: Text, which: Option<Option<Text>>)
    ensures
        all_one_line(kept(lines_of(existing), which)),
{
    let all = lines_of(existing);
    let others = kept(all, which);
    lemma_lines_are_lines(existing);
    lemma_kept_unmarked(all, which);
    assert forall|i: int| 0 <= i < others.len() implies is_one_line(#[trigger] others[i]) by {
        assert(all.contains(others[i]));
        assert(is_one_line(all[all.index_of(others[i])]));
    }
}

/// The section of a checkout is all that a sync changes: what stood outside it,
/// the sections of other worktrees with it, stands there as before, followed by
/// the section with the new files, as they are read, and nothing else. No name of
/// a file may read as the end of the section.
pub proof fn sync_changes_only_its_section(existing: Text, worktree: Option<Text>, files: Seq<Text>)
    requires
        is_tidy(existing, worktree),
        plain_name(worktree),
        all_one_line(files),
        unended(as_read(files), Some(worktree)),
    ensures
        kept(lines_of(synced(existing, worktree, files)), Some(worktree)) == kept(
            lines_of(existing),
            Some(worktree),
        ),
        lines_of(synced(existing, worktree, files)) == kept(lines_of(existing), Some(worktree)) + (
        if files.len() == 0 {
            Seq::empty()
        } else {
            seq![start_marker(worktree)] + as_read(files) + seq![end_marker(worktree)]
        }),
{
    let which = Some(worktree);
    let all = lines_of(existing);
    let others = kept(all, which);
    lemma_kept_are_lines(existing, which);
    lemma_kept_unmarked(all, which);
    assert forall|i: int| 0 <= i < others.len() implies is_plain(#[trigger] others[i]) by {
        assert(is_one_line(others[i]));
    }
    lemma_closed_lines(others);
    lemma_plain_as_read(others);
    lemma_section(worktree, files, which);
    let written = section_lines(worktree, files);
    let own = section_lines(worktree, as_read(files));
    lemma_lines(written);
    lemma_lines_first(others, with_newlines(written));
    lemma_unmarked_kept(others, which);
    lemma_kept_splits(others, own, which);
    assert(others + Seq::<Text>::empty() =~= others);
}

/// Of two syncs of one checkout the last wins; syncing again with the same files
/// changes nothing.
pub proof fn last_sync_wins(
    existing: Text,
    worktree: Option<Text>,
    before: Seq<Text>,
    files: Seq<Text>,
)
    requires
        is_tidy(existing, worktree),
        plain_name(worktree),
        all_one_line(before),
        unended(as_read(before), Some(worktree)),
    ensures
        synced(synced(existing, worktree, before), worktree, files) == synced(
            existing,
            worktree,
            files,
        ),
{
    sync_changes_only_its_section(existing, worktree, before);
}

proof fn lemma_unmarked_as_read(lines: Seq<Text>)
    requires
        unmarked(lines, None),
    ensures
        unmarked(as_read(lines), None),
{
    let read = as_read(lines);
    let start = "# subcontext-overlay-start"@;
    let end = "# subcontext-overlay-end"@;
    assert forall|i: int| 0 <= i < read.len() implies !is_start(#[trigger] read[i], None)
        && !is_end(read[i], None) by {
        let line = lines[i];
        assert(read[i] == without_return(line));
        assert(!is_start(line, None) && !is_end(line, None));
        if start.is_prefix_of(read[i]) {
            assert(line.subrange(0, start.len() as int) =~= read[i].subrange(
                0,
                start.len() as int,
            ));
        }
        if end.is_prefix_of(read[i]) {
            assert(line.subrange(0, end.len() as int) =~= read[i].subrange(0, end.len() as int));
        }
    }
}

/// Cleaning leaves no overlay section behind: no line of a cleaned exclude file
/// is a marker.
pub proof fn clean_leaves_no_section(existing: Text)
    ensures
        unmarked(lines_of(cleaned(existing)), None),
{
    let all = lines_of(existing);
    let others = kept(all, None);
    lemma_kept_are_lines(existing, None);
    lemma_kept_unmarked(all, None);
    if others.len() > 0 {
        lemma_joined_closed(others);
        lemma_lines(others);
        lemma_unmarked_as_read(others);
    } else {
        let blank: Seq<Text> = seq![Seq::empty()];
        reveal_strlit("# subcontext-overlay-start");
        reveal_strlit("# subcontext-overlay-end");
        lemma_joined_closed(blank);
        lemma_lines(blank);
        lemma_plain_as_read(blank);
    }
}

/// Cleaning undoes a sync: a file that held no overlay section has its own lines
/// back.
pub proof fn clean_undoes_sync(existing: Text, worktree: Option<Text>, files: Seq<Text>)
    requires
        is_tidy(existing, worktree),
        plain_name(worktree),
        all_one_line(files),
        unended(as_read(files), None),
        lines_of(existing).len() > 0,
        unmarked(lines_of(existing), None),
    ensures
        lines_of(cleaned(synced(existing, worktree, files))) == lines_of(existing),
{
    let all = lines_of(existing);
    lemma_markers(worktree);
    assert forall|line: Text| !is_start(line, None) implies !is_start(line, Some(worktree)) by {
        if line == start_marker(worktree) {
        }
    }
    assert forall|line: Text| !is_end(line, None) implies !is_end(line, Some(worktree)) by {
        if line == end_marker(worktree) {
        }
    }
    assert(unmarked(all, Some(worktree)));
    assert(unended(as_read(files), Some(worktree)));
    lemma_unmarked_kept(all, Some(worktree));
    sync_changes_only_its_section(existing, worktree, files);
    lemma_section(worktree, files, None);
    let own = section_lines(worktree, as_read(files));
    lemma_unmarked_kept(all, None);
    lemma_kept_splits(all, own, None);
    assert(all + own =~= lines_of(synced(existing, worktree, files)));
    assert(kept(all + own, None) =~= all);
    lemma_lines_are_lines(existing);
    assert forall|i: int| 0 <= i < all.len() implies is_plain(#[trigger] all[i]) by {
        assert(is_one_line(all[i]));
    }
    lemma_joined_closed(all);
    lemma_lines(all);
    lemma_plain_as_read(all);
}

} // verus!
