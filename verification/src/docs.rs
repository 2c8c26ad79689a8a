//! Dumping the bundled documentation.

use vstd::prelude::*;

use crate::backend::{write_text, Backend};
use crate::failure::{outcome, Failure, Outcome};
use crate::overlay::{ensure_parent, ensure_parent_run};
use crate::paths::{join_path, path_join};
use crate::text::{cat, decimal, number_text, Text};
use crate::world::World;

verus! {

/// Writing one file of the documentation: its relative path and its content.
pub open spec fn dump_one_run(w: World, dest: Text, doc: (Text, Text)) -> (World, Outcome<()>) {
    let target = path_join(dest, doc.0);
    let (w, made) = ensure_parent_run(w, target);
    match made {
        Err(e) => (w, Err(e)),
        Ok(_) => {
            let (w, written) = w.write(target, doc.1);
            match written {
                Err(e) => (w, Err(e)),
                Ok(_) => (w.note("[subcontext] Wrote "@ + target), Ok(())),
            }
        },
    }
}

/// Writing the files from the `i`-th on.
pub open spec fn dump_from_run(w: World, dest: Text, docs: Seq<(Text, Text)>, i: nat) -> (
    World,
    Outcome<()>,
)
    decreases docs.len() - i,
{
    if i >= docs.len() {
        (w, Ok(()))
    } else {
        let (w, done) = dump_one_run(w, dest, docs[i as int]);
        match done {
            Err(e) => (w, Err(e)),
            Ok(_) => dump_from_run(w, dest, docs, i + 1),
        }
    }
}

/// Dumping the documentation.
pub open spec fn dump_run(w: World, dest: Text, docs: Seq<(Text, Text)>) -> (World, Outcome<()>) {
    let (w, made) = w.create_dir_all(dest);
    match made {
        Err(e) => (w, Err(e)),
        Ok(_) => {
            let (w, done) = dump_from_run(w, dest, docs, 0);
            match done {
                Err(e) => (w, Err(e)),
                Ok(_) => (
                    w.note(
                        "[subcontext] Dumped "@ + decimal(docs.len()) + " doc files to "@ + dest,
                    ),
                    Ok(()),
                ),
            }
        },
    }
}

/// Dump all bundled documentation to `dest`. Creates directories as needed.
/// Overwrites existing files. Each doc file is its relative path and its
/// content.
pub fn dump_docs<B: Backend>(backend: &mut B, dest: &str, docs: &[(&str, &str)]) -> (r: Result<
    (),
    Failure,
>)
    ensures
        (final(backend).world(), outcome(r)) == dump_run(
            old(backend).world(),
            dest@,
            docs.deep_view(),
        ),
{
    backend.create_dir_all(dest)?;
    let ghost all = docs.deep_view();
    let ghost w0 = backend.world();
    let mut i: usize = 0;
    while i < docs.len()
        invariant
            i <= docs@.len(),
            all == docs.deep_view(),
            dump_from_run(backend.world(), dest@, all, i as nat) == dump_from_run(
                w0,
                dest@,
                all,
                0,
            ),
            old(backend).world().create_dir_all(dest@) == (w0, Ok::<(), Seq<Text>>(())),
        decreases docs@.len() - i,
    {
        assert(all[i as int] == (docs@[i as int].0@, docs@[i as int].1@));
        let target = join_path(dest, docs[i].0);
        ensure_parent(backend, target.as_str())?;
        write_text(backend, target.as_str(), docs[i].1)?;
        let line = cat("[subcontext] Wrote ", target.as_str());
        backend.note(line.as_str());
        i = i + 1;
    }
    let count = number_text(docs.len());
    let line = crate::text::cat4(
        "[subcontext] Dumped ",
        count.as_str(),
        " doc files to ",
        dest,
    );
    backend.note(line.as_str());
    Ok(())
}

} // verus!
