//! Layer entries and overlay whiteouts: what each tar entry of a layer does
//! to the destination tree, and a model of the tree to state it over.
use vstd::prelude::*;

use crate::text::{begins_with, find_last, index_of_last, same_text, text_of};

verus! {

/// What the extractor does with one tar entry.
pub enum EntryAction {
    /// Unpack the entry as it is.
    Extract,
    /// Empty this directory; the marker itself is not unpacked.
    ClearDir(String),
    /// Delete this file or directory tree if present; the marker itself is not
    /// unpacked.
    Remove(String),
}

/// The effect of an entry on the tree, over plain paths.
pub enum Effect {
    Extract,
    Clear(Seq<char>),
    Remove(Seq<char>),
}

impl View for EntryAction {
    type V = Effect;

    open spec fn view(&self) -> Effect {
        match self {
            EntryAction::Extract => Effect::Extract,
            EntryAction::ClearDir(d) => Effect::Clear(d@),
            EntryAction::Remove(t) => Effect::Remove(t@),
        }
    }
}

/// Prefix of the name of a whiteout marker.
pub open spec fn marker_prefix() -> Seq<char> {
    ".wh."@
}

/// Name of the opaque-directory marker.
pub open spec fn opaque_marker() -> Seq<char> {
    ".wh..opq"@
}

/// Position just after the last `/` of a path: where its file name starts.
pub open spec fn name_start(p: Seq<char>) -> int {
    find_last(p, '/', p.len() as int) + 1
}

/// The file name of a path: what follows its last `/`.
pub open spec fn file_name(p: Seq<char>) -> Seq<char> {
    p.skip(name_start(p))
}

/// Whether a name starts with the whiteout prefix.
pub open spec fn is_marker_name(name: Seq<char>) -> bool {
    marker_prefix().len() <= name.len() && name.take(marker_prefix().len() as int) == marker_prefix()
}

/// What an entry at `path` does: a regular file whose name starts with the
/// whiteout prefix clears its directory (the opaque marker) or removes its
/// sibling named by the rest of the name; anything else is unpacked.
pub open spec fn entry_effect(path: Seq<char>, is_regular: bool) -> Effect {
    let name = file_name(path);
    if is_regular && is_marker_name(name) {
        if name == opaque_marker() {
            Effect::Clear(
                if name_start(path) > 0 {
                    path.take(name_start(path) - 1)
                } else {
                    seq![]
                },
            )
        } else {
            Effect::Remove(path.take(name_start(path)) + name.skip(marker_prefix().len() as int))
        }
    } else {
        Effect::Extract
    }
}

/// Decides what to do with the entry unpacked to `path`.
pub fn whiteout_action(path: &str, is_regular: bool) -> (r: EntryAction)
    ensures
        r@ == entry_effect(path@, is_regular),
{
    let n = path.unicode_len();
    let start: usize = match index_of_last(path, '/') {
        Some(k) => k + 1,
        None => 0,
    };
    assert(start as int == name_start(path@));
    let name = path.substring_char(start, n);
    assert(name@ == file_name(path@));
    if !is_regular || !begins_with(name, ".wh.") {
        return EntryAction::Extract;
    }
    if same_text(name, ".wh..opq") {
        let dir = if start > 0 {
            text_of(path.substring_char(0, start - 1))
        } else {
            String::new()
        };
        assert(dir@ =~= (if name_start(path@) > 0 {
            path@.take(name_start(path@) - 1)
        } else {
            seq![]
        }));
        EntryAction::ClearDir(dir)
    } else {
        proof {
            reveal_strlit(".wh.");
        }
        let m = name.unicode_len();
        let target = text_of(path.substring_char(0, start)).concat(name.substring_char(4, m));
        EntryAction::Remove(target)
    }
}

/// Whether `q` lies strictly inside the directory `d`.
pub open spec fn inside(q: Seq<char>, d: Seq<char>) -> bool {
    q.len() > d.len() && q.take(d.len() as int) == d && q[d.len() as int] == '/'
}

/// The tree after one effect, the tree being the set of paths present.
pub open spec fn apply_effect(tree: Set<Seq<char>>, path: Seq<char>, e: Effect) -> Set<Seq<char>> {
    match e {
        Effect::Extract => tree.insert(path),
        Effect::Clear(d) => tree.filter(|q: Seq<char>| !inside(q, d)),
        Effect::Remove(t) => tree.filter(|q: Seq<char>| q != t && !inside(q, t)),
    }
}

/// The tree after one entry, given by its path and whether it is a regular
/// file.
pub open spec fn apply_entry(tree: Set<Seq<char>>, entry: (Seq<char>, bool)) -> Set<Seq<char>> {
    apply_effect(tree, entry.0, entry_effect(entry.0, entry.1))
}

/// The tree after a layer's entries, applied in tar order.
pub open spec fn apply_layer(tree: Set<Seq<char>>, entries: Seq<(Seq<char>, bool)>) -> Set<
    Seq<char>,
>
    decreases entries.len(),
{
    if entries.len() == 0 {
        tree
    } else {
        apply_layer(apply_entry(tree, entries[0]), entries.drop_first())
    }
}

/// The tree after whole layers, base to top.
pub open spec fn apply_layers(tree: Set<Seq<char>>, layers: Seq<Seq<(Seq<char>, bool)>>) -> Set<
    Seq<char>,
>
    decreases layers.len(),
{
    if layers.len() == 0 {
        tree
    } else {
        apply_layers(apply_layer(tree, layers[0]), layers.drop_first())
    }
}

/// Whether a path names a whiteout marker.
pub open spec fn is_marker_path(q: Seq<char>) -> bool {
    is_marker_name(file_name(q))
}

/// The file name of `dir/name` is `name` when `name` has no `/`.
proof fn lemma_file_name_of_join(dir: Seq<char>, name: Seq<char>)
    requires
        !name.contains('/'),
    ensures
        name_start(dir + seq!['/'] + name) == dir.len() + 1,
        file_name(dir + seq!['/'] + name) == name,
        (dir + seq!['/'] + name).take(dir.len() as int + 1) == dir + seq!['/'],
        (dir + seq!['/'] + name).take(dir.len() as int) == dir,
{
    let p = dir + seq!['/'] + name;
    assert forall|j: int| dir.len() < j < p.len() implies p[j] != '/' by {
        assert(p[j] == name[j - dir.len() - 1]);
        if name[j - dir.len() - 1] == '/' {
            assert(name.contains('/'));
        }
    }
    crate::text::lemma_find_last_at(p, '/', p.len() as int, dir.len() as int);
    assert(file_name(p) =~= name);
    assert(p.take(dir.len() as int + 1) =~= dir + seq!['/']);
    assert(p.take(dir.len() as int) =~= dir);
}

/// The marker prefix holds no `/`.
proof fn lemma_prefix_no_slash()
    ensures
        !marker_prefix().contains('/'),
        marker_prefix().len() == 4,
        opaque_marker() == marker_prefix() + seq!['.', 'o', 'p', 'q'],
{
    reveal_strlit(".wh.");
    reveal_strlit(".wh..opq");
    assert(opaque_marker() =~= marker_prefix() + seq!['.', 'o', 'p', 'q']);
    if marker_prefix().contains('/') {
        let j = choose|j: int| 0 <= j < marker_prefix().len() && marker_prefix()[j] == '/';
    }
}

/// A regular entry `dir/.wh.name` deletes `dir/name`, file or directory,
/// from what earlier entries and layers left.
pub proof fn lemma_whiteout_removes(tree: Set<Seq<char>>, dir: Seq<char>, name: Seq<char>)
    requires
        !name.contains('/'),
        name != seq!['.', 'o', 'p', 'q'],
    ensures
        ({
            let after = apply_entry(tree, (dir + seq!['/'] + marker_prefix() + name, true));
            &&& !after.contains(dir + seq!['/'] + name)
            &&& forall|q: Seq<char>| inside(q, dir + seq!['/'] + name) ==> !after.contains(q)
            &&& forall|q: Seq<char>| after.contains(q) ==> tree.contains(q)
        }),
{
    lemma_prefix_no_slash();
    let fname = marker_prefix() + name;
    assert(!fname.contains('/')) by {
        if fname.contains('/') {
            let j = choose|j: int| 0 <= j < fname.len() && fname[j] == '/';
            if j < 4 {
                assert(marker_prefix()[j] == '/');
                assert(marker_prefix().contains('/'));
            } else {
                assert(name[j - 4] == '/');
                assert(name.contains('/'));
            }
        }
    }
    let path = dir + seq!['/'] + fname;
    assert(path =~= dir + seq!['/'] + marker_prefix() + name);
    lemma_file_name_of_join(dir, fname);
    assert(fname.take(4) =~= marker_prefix());
    assert(fname != opaque_marker()) by {
        if fname == opaque_marker() {
            assert(fname.skip(4) =~= name);
            assert(opaque_marker().skip(4) =~= seq!['.', 'o', 'p', 'q']);
        }
    }
    assert(fname.skip(4) =~= name);
    assert(entry_effect(path, true) == Effect::Remove(dir + seq!['/'] + name));
}

/// A regular entry `dir/.wh..opq` empties `dir` of everything earlier
/// entries and layers left, before the rest of the layer is applied.
pub proof fn lemma_opaque_clears(
    tree: Set<Seq<char>>,
    dir: Seq<char>,
    rest: Seq<(Seq<char>, bool)>,
)
    ensures
        ({
            let marker = (dir + seq!['/'] + opaque_marker(), true);
            let cleared = apply_entry(tree, marker);
            &&& forall|q: Seq<char>| inside(q, dir) ==> !cleared.contains(q)
            &&& forall|q: Seq<char>| cleared.contains(q) <==> tree.contains(q) && !inside(q, dir)
            &&& apply_layer(tree, seq![marker] + rest) == apply_layer(cleared, rest)
        }),
{
    lemma_prefix_no_slash();
    let fname = opaque_marker();
    assert(!fname.contains('/')) by {
        if fname.contains('/') {
            let j = choose|j: int| 0 <= j < fname.len() && fname[j] == '/';
            if j < 4 {
                assert(marker_prefix()[j] == '/');
                assert(marker_prefix().contains('/'));
            }
        }
    }
    let path = dir + seq!['/'] + fname;
    lemma_file_name_of_join(dir, fname);
    assert(fname.take(4) =~= marker_prefix());
    assert(entry_effect(path, true) == Effect::Clear(dir));
    let marker = (path, true);
    assert((seq![marker] + rest)[0] == marker);
    assert((seq![marker] + rest).drop_first() =~= rest);
}

/// Unpacking a layer never leaves a whiteout marker behind: if the tree held
/// none and every entry named like a marker is a regular file, the tree
/// holds none afterwards.
pub proof fn lemma_markers_not_materialized(
    tree: Set<Seq<char>>,
    entries: Seq<(Seq<char>, bool)>,
)
    requires
        forall|q: Seq<char>| tree.contains(q) ==> !is_marker_path(q),
        forall|i: int| 0 <= i < entries.len() && is_marker_path(entries[i].0) ==> entries[i].1,
    ensures
        forall|q: Seq<char>| apply_layer(tree, entries).contains(q) ==> !is_marker_path(q),
    decreases entries.len(),
{
    if entries.len() > 0 {
        let next = apply_entry(tree, entries[0]);
        assert forall|q: Seq<char>| next.contains(q) implies !is_marker_path(q) by {
            if q == entries[0].0 && !tree.contains(q) {
                assert(entry_effect(entries[0].0, entries[0].1) is Extract);
            }
        }
        let rest = entries.drop_first();
        assert forall|i: int| 0 <= i < rest.len() && is_marker_path(rest[i].0) implies rest[i].1 by {
            assert(rest[i] == entries[i + 1]);
        }
        lemma_markers_not_materialized(next, rest);
    }
}

/// Over whole images too: unpacking layers base to top leaves no whiteout
/// marker, given the same condition on every layer.
pub proof fn lemma_image_has_no_markers(
    tree: Set<Seq<char>>,
    layers: Seq<Seq<(Seq<char>, bool)>>,
)
    requires
        forall|q: Seq<char>| tree.contains(q) ==> !is_marker_path(q),
        forall|l: int, i: int|
            0 <= l < layers.len() && 0 <= i < layers[l].len() && is_marker_path(layers[l][i].0)
                ==> layers[l][i].1,
    ensures
        forall|q: Seq<char>| apply_layers(tree, layers).contains(q) ==> !is_marker_path(q),
    decreases layers.len(),
{
    if layers.len() > 0 {
        assert forall|i: int| 0 <= i < layers[0].len() && is_marker_path(layers[0][i].0)
            implies layers[0][i].1 by {}
        lemma_markers_not_materialized(tree, layers[0]);
        let rest = layers.drop_first();
        assert forall|l: int, i: int|
            0 <= l < rest.len() && 0 <= i < rest[l].len() && is_marker_path(rest[l][i].0)
            implies rest[l][i].1 by {
            assert(rest[l] == layers[l + 1]);
        }
        lemma_image_has_no_markers(apply_layer(tree, layers[0]), rest);
    }
}

} // verus!
