//! What lies below a directory.

use vstd::prelude::*;

use crate::backend::Backend;
use crate::failure::{outcome, Failure, Outcome};
use crate::paths::{file_name, file_name_of, join_path, path_join};
use crate::text::{same, Text};
use crate::world::World;

verus! {

/// Something below a directory.
pub struct Item {
    /// The way to it.
    pub path: String,
    /// Is it a directory?
    pub is_dir: bool,
}

/// The view of something below a directory.
pub struct ItemView {
    pub path: Text,
    pub is_dir: bool,
}

impl DeepView for Item {
    type V = ItemView;

    open spec fn deep_view(&self) -> ItemView {
        ItemView { path: self.path@, is_dir: self.is_dir }
    }
}

/// What a walk gives: what was found, and whether it went through.
pub type Walk = (World, Seq<ItemView>, Outcome<()>);

/// The name of what is at a path; empty where it has none.
pub open spec fn name_at(path: Text) -> Text {
    match file_name_of(path) {
        Some(name) => name,
        None => Seq::empty(),
    }
}

/// Finding what lies below the directory `dir`, behind what is in `found`, no more
/// than `depth` levels deep: each is told by the way to it, with `rel` before it,
/// and a directory is followed by what lies below it. What is named `.git` belongs
/// to git and is passed over.
pub open spec fn below_within(
    w: World,
    dir: Text,
    rel: Text,
    found: Seq<ItemView>,
    depth: nat,
) -> Option<Walk>
    decreases depth, 1int, 0int,
{
    let (w, paths) = w.read_dir(dir);
    match paths {
        Err(e) => Some((w, found, Err(e))),
        Ok(paths) => below_each_within(w, paths, 0, rel, found, depth),
    }
}

/// Finding what lies at and below the paths from the `i`-th on.
pub open spec fn below_each_within(
    w: World,
    paths: Seq<Text>,
    i: nat,
    rel: Text,
    found: Seq<ItemView>,
    depth: nat,
) -> Option<Walk>
    decreases depth, 0int, paths.len() - i,
{
    if i >= paths.len() {
        Some((w, found, Ok(())))
    } else {
        let at = paths[i as int];
        if name_at(at) == ".git"@ {
            below_each_within(w, paths, i + 1, rel, found, depth)
        } else {
            let path = path_join(rel, name_at(at));
            let (w, is_dir) = w.is_dir(at);
            let now = found.push(ItemView { path, is_dir });
            if !is_dir {
                below_each_within(w, paths, i + 1, rel, now, depth)
            } else if depth == 0 {
                None
            } else {
                match below_within(w, at, path, now, (depth - 1) as nat) {
                    None => None,
                    Some((w, found, Err(e))) => Some((w, found, Err(e))),
                    Some((w, found, Ok(_))) => below_each_within(
                        w,
                        paths,
                        i + 1,
                        rel,
                        found,
                        depth,
                    ),
                }
            }
        }
    }
}

/// A walk is one: where it ends, it ends the same way however deep it may go.
pub proof fn walk_is_one(
    w: World,
    dir: Text,
    rel: Text,
    found: Seq<ItemView>,
    depth: nat,
    more: nat,
)
    requires
        below_within(w, dir, rel, found, depth) is Some,
        depth <= more,
    ensures
        below_within(w, dir, rel, found, more) == below_within(w, dir, rel, found, depth),
    decreases depth, 1int, 0int,
{
    let (w1, paths) = w.read_dir(dir);
    match paths {
        Err(_) => {},
        Ok(paths) => {
            lemma_each(w1, paths, 0, rel, found, depth, more);
        },
    }
}

proof fn lemma_each(
    w: World,
    paths: Seq<Text>,
    i: nat,
    rel: Text,
    found: Seq<ItemView>,
    depth: nat,
    more: nat,
)
    requires
        below_each_within(w, paths, i, rel, found, depth) is Some,
        depth <= more,
    ensures
        below_each_within(w, paths, i, rel, found, more) == below_each_within(
            w,
            paths,
            i,
            rel,
            found,
            depth,
        ),
    decreases depth, 0int, paths.len() - i,
{
    if i < paths.len() {
        let at = paths[i as int];
        if name_at(at) == ".git"@ {
            lemma_each(w, paths, i + 1, rel, found, depth, more);
        } else {
            let path = path_join(rel, name_at(at));
            let (w1, is_dir) = w.is_dir(at);
            let now = found.push(ItemView { path, is_dir });
            if !is_dir {
                lemma_each(w1, paths, i + 1, rel, now, depth, more);
            } else {
                walk_is_one(w1, at, path, now, (depth - 1) as nat, (more - 1) as nat);
                match below_within(w1, at, path, now, (depth - 1) as nat) {
                    Some((w2, found, Ok(_))) => {
                        lemma_each(w2, paths, i + 1, rel, found, depth, more);
                    },
                    _ => {},
                }
            }
        }
    }
}

/// Find what lies below a directory, behind what is in `found`.
pub fn find_below<B: Backend>(backend: &mut B, dir: &str, rel: &str, found: &mut Vec<Item>) -> (r:
    Result<(), Failure>)
    ensures
        final(found)@.len() >= old(found)@.len(),
        exists|depth: nat|
            #[trigger] below_within(
                old(backend).world(),
                dir@,
                rel@,
                old(found).deep_view(),
                depth,
            ) == Some((final(backend).world(), final(found).deep_view(), outcome(r))),
    decreases usize::MAX - old(found)@.len(),
{
    let ghost w0 = backend.world();
    let ghost found0 = found.deep_view();
    let ghost at_once = below_within(w0, dir@, rel@, found0, 0);
    let paths = backend.read_dir(dir)?;
    let ghost all = paths.deep_view();
    let ghost w1 = backend.world();
    let ghost mut need: nat = 0;
    let mut i: usize = 0;
    while i < paths.len()
        invariant
            i <= paths@.len(),
            all == paths.deep_view(),
            w0 == old(backend).world(),
            found0 == old(found).deep_view(),
            found@.len() >= old(found)@.len(),
            forall|depth: nat|
                #[trigger] below_within(w0, dir@, rel@, found0, depth) == below_each_within(
                    w1,
                    all,
                    0,
                    rel@,
                    found0,
                    depth,
                ),
            forall|depth: nat|
                depth >= need ==> #[trigger] below_each_within(w1, all, 0, rel@, found0, depth)
                    == below_each_within(
                    backend.world(),
                    all,
                    i as nat,
                    rel@,
                    found.deep_view(),
                    depth,
                ),
        decreases paths@.len() - i,
    {
        let ghost before = found.deep_view();
        assert(all[i as int] == paths@[i as int]@);
        let at = paths[i].as_str();
        let name = match file_name(at) {
            Some(name) => name,
            None => {
                let none = String::new();
                assert(none@ =~= Seq::<char>::empty());
                none
            },
        };
        if same(name.as_str(), ".git") {
            i = i + 1;
            continue ;
        }
        let path = join_path(rel, name.as_str());
        let is_dir = backend.is_dir(at);
        let ghost told = ItemView { path: path@, is_dir };
        found.push(Item { path: path.clone(), is_dir });
        proof {
            assert(found.deep_view() =~= before.push(told));
            assert(found.len() <= usize::MAX);
        }
        if is_dir {
            let ghost now = found.deep_view();
            let ghost w2 = backend.world();
            let done = find_below(backend, at, path.as_str(), found);
            proof {
                let depth = choose|depth: nat|
                    #[trigger] below_within(w2, at@, path@, now, depth) == Some(
                        (backend.world(), found.deep_view(), outcome(done)),
                    );
                let enough: nat = if need > depth + 1 {
                    need
                } else {
                    depth + 1
                };
                assert forall|d: nat| d >= enough implies #[trigger] below_each_within(
                    w1,
                    all,
                    0,
                    rel@,
                    found0,
                    d,
                ) == (match outcome(done) {
                    Err(e) => Some((backend.world(), found.deep_view(), Err::<(), Seq<Text>>(e))),
                    Ok(_) => below_each_within(
                        backend.world(),
                        all,
                        (i + 1) as nat,
                        rel@,
                        found.deep_view(),
                        d,
                    ),
                }) by {
                    walk_is_one(w2, at@, path@, now, depth, (d - 1) as nat);
                }
                need = enough;
                assert(below_within(w0, dir@, rel@, found0, need) == below_each_within(
                    w1,
                    all,
                    0,
                    rel@,
                    found0,
                    need,
                ));
            }
            done?;
        }
        i = i + 1;
    }
    proof {
        assert(below_within(w0, dir@, rel@, found0, need) == below_each_within(
            w1,
            all,
            0,
            rel@,
            found0,
            need,
        ));
    }
    Ok(())
}

/// The ways to the files among what was found.
pub open spec fn files_of(found: Seq<ItemView>) -> Seq<Text>
    decreases found.len(),
{
    if found.len() == 0 {
        Seq::empty()
    } else if found.last().is_dir {
        files_of(found.drop_last())
    } else {
        files_of(found.drop_last()).push(found.last().path)
    }
}

/// The ways to the files among what was found.
pub fn files_among(found: &Vec<Item>) -> (r: Vec<String>)
    ensures
        r.deep_view() == files_of(found.deep_view()),
{
    let ghost all = found.deep_view();
    let mut out: Vec<String> = Vec::new();
    let mut i: usize = 0;
    assert(out.deep_view() =~= files_of(all.take(0)));
    while i < found.len()
        invariant
            i <= found@.len(),
            all == found.deep_view(),
            out.deep_view() == files_of(all.take(i as int)),
        decreases found@.len() - i,
    {
        let ghost before = out.deep_view();
        proof {
            assert(all.take(i + 1).drop_last() =~= all.take(i as int));
            assert(all.take(i + 1).last() == found@[i as int].deep_view());
        }
        if !found[i].is_dir {
            out.push(found[i].path.clone());
            assert(out.deep_view() =~= before.push(found@[i as int].path@));
        }
        i = i + 1;
    }
    assert(all.take(found@.len() as int) =~= all);
    out
}

} // verus!
