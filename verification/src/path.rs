//! Paths of directories: two are the same where their components are.
//!
//! A path is the bytes of its text, with a slash between components. Repeated and
//! trailing slashes count for nothing, and neither does a `.` that is not the first
//! component.

use vstd::prelude::*;

verus! {

/// What stands between the slashes of a path.
pub open spec fn split_path(path: Seq<u8>) -> Seq<Seq<u8>>
    decreases path.len(),
{
    if path.len() == 0 {
        seq![Seq::empty()]
    } else {
        let before = split_path(path.drop_last());
        if path.last() == 0x2f {
            before.push(Seq::empty())
        } else {
            before.drop_last().push(before.last().push(path.last()))
        }
    }
}

/// Whether a part is a `.`.
pub open spec fn is_dot(part: Seq<u8>) -> bool {
    part == seq![0x2eu8]
}

/// The parts that are components: those that are not empty, and no `.` but at the start.
pub open spec fn kept_parts(parts: Seq<Seq<u8>>) -> Seq<Seq<u8>>
    decreases parts.len(),
{
    if parts.len() == 0 {
        Seq::empty()
    } else {
        let kept = kept_parts(parts.drop_last());
        let last = parts.last();
        if last.len() > 0 && (parts.len() == 1 || !is_dot(last)) {
            kept.push(last)
        } else {
            kept
        }
    }
}

/// Whether a path begins at the root of the file system.
pub open spec fn is_rooted(path: Seq<u8>) -> bool {
    path.len() > 0 && path[0] == 0x2f
}

/// The components of a path.
pub open spec fn components(path: Seq<u8>) -> Seq<Seq<u8>> {
    kept_parts(split_path(path))
}

/// Parts with one slash between each two.
pub open spec fn joined(parts: Seq<Seq<u8>>) -> Seq<u8>
    decreases parts.len(),
{
    if parts.len() == 0 {
        Seq::empty()
    } else if parts.len() == 1 {
        parts[0]
    } else {
        joined(parts.drop_last()) + seq![0x2fu8] + parts.last()
    }
}

/// The text that a path has where nothing in it counts for nothing.
pub open spec fn normal_path(path: Seq<u8>) -> Seq<u8> {
    if is_rooted(path) {
        seq![0x2fu8] + joined(components(path))
    } else {
        joined(components(path))
    }
}

/// The views of parts.
spec fn part_views(parts: Seq<Vec<u8>>) -> Seq<Seq<u8>> {
    parts.map_values(|part: Vec<u8>| part@)
}

/// What stands between the slashes of a path.
fn split(path: &[u8]) -> (r: Vec<Vec<u8>>)
    ensures
        part_views(r@) == split_path(path@),
{
    let mut done: Vec<Vec<u8>> = Vec::new();
    let mut part: Vec<u8> = Vec::new();
    let mut i: usize = 0;
    assert(path@.take(0) =~= Seq::<u8>::empty());
    assert(part_views(done@).push(part@) =~= seq![Seq::<u8>::empty()]);
    while i < path.len()
        invariant
            i <= path@.len(),
            part_views(done@).push(part@) == split_path(path@.take(i as int)),
        decreases path@.len() - i,
    {
        let ghost before = part_views(done@).push(part@);
        let ghost views = part_views(done@);
        let ghost whole = part@;
        let byte: u8 = path[i];
        assert(path@.take(i + 1).drop_last() =~= path@.take(i as int));
        assert(before.drop_last() =~= views);
        if byte == 0x2f {
            done.push(part);
            part = Vec::new();
            assert(part_views(done@) =~= before);
            assert(part@ =~= Seq::<u8>::empty());
        } else {
            part.push(byte);
            assert(part@ == whole.push(byte));
        }
        i += 1;
    }
    assert(path@.take(path@.len() as int) =~= path@);
    let ghost views = part_views(done@);
    done.push(part);
    assert(part_views(done@) =~= views.push(part@));
    done
}

/// The text that a path has where nothing in it counts for nothing.
pub fn normalize(path: &[u8]) -> (r: Vec<u8>)
    ensures
        r@ == normal_path(path@),
{
    let parts: Vec<Vec<u8>> = split(path);
    let ghost views = part_views(parts@);
    let mut text: Vec<u8> = Vec::new();
    let mut is_first: bool = true;
    let mut i: usize = 0;
    assert(views.take(0) =~= Seq::<Seq<u8>>::empty());
    assert(text@ =~= joined(kept_parts(views.take(0))));
    while i < parts.len()
        invariant
            i <= parts@.len(),
            views == part_views(parts@),
            text@ == joined(kept_parts(views.take(i as int))),
            is_first == (kept_parts(views.take(i as int)).len() == 0),
        decreases parts@.len() - i,
    {
        let part: &Vec<u8> = &parts[i];
        let ghost kept = kept_parts(views.take(i as int));
        let ghost so_far = text@;
        assert(views.take(i + 1).drop_last() =~= views.take(i as int));
        assert(views.take(i + 1).last() == part@);
        let dot: bool = part.len() == 1 && part[0] == 0x2e;
        assert(dot == is_dot(part@)) by {
            assert(dot ==> part@ =~= seq![0x2eu8]);
        }
        if part.len() > 0 && (i == 0 || !dot) {
            if !is_first {
                text.push(0x2f);
            }
            text.extend_from_slice(part.as_slice());
            assert(kept.push(part@).drop_last() =~= kept);
            assert(text@ =~= joined(kept.push(part@)));
            is_first = false;
        }
        i += 1;
    }
    assert(views.take(parts@.len() as int) =~= views);
    if path.len() > 0 && path[0] == 0x2f {
        let mut rooted: Vec<u8> = Vec::new();
        rooted.push(0x2f);
        rooted.extend_from_slice(text.as_slice());
        assert(rooted@ =~= normal_path(path@));
        rooted
    } else {
        text
    }
}

/// Whether no part holds a slash.
pub open spec fn slash_free(parts: Seq<Seq<u8>>) -> bool {
    forall|i: int, k: int|
        0 <= i < parts.len() && 0 <= k < parts[i].len() ==> #[trigger] parts[i][k] != 0x2f
}

/// What splitting a path gives.
pub proof fn lemma_split(path: Seq<u8>)
    ensures
        split_path(path).len() >= 1,
        is_rooted(path) ==> split_path(path).len() >= 2,
        slash_free(split_path(path)),
        split_path(path)[0].len() == 0 <==> path.len() == 0 || is_rooted(path),
        split_path(path)[0].len() > 0 ==> split_path(path)[0][0] == path[0],
    decreases path.len(),
{
    if path.len() > 0 {
        let before = split_path(path.drop_last());
        lemma_split(path.drop_last());
        if path.len() == 1 {
            assert(before =~= seq![Seq::<u8>::empty()]);
        }
        let after = split_path(path);
        assert forall|i: int, k: int|
            0 <= i < after.len() && 0 <= k < after[i].len() implies #[trigger] after[i][k] != 0x2f by {
            if i < before.len() && k < before[i].len() {
                assert(before[i][k] != 0x2f);
            }
        }
    }
}

/// What follows the last slash is the last part.
pub proof fn lemma_split_tail(head: Seq<u8>, tail: Seq<u8>)
    requires
        forall|k: int| 0 <= k < tail.len() ==> tail[k] != 0x2f,
    ensures
        split_path(head + seq![0x2fu8] + tail) == split_path(head).push(tail),
    decreases tail.len(),
{
    let path = head + seq![0x2fu8] + tail;
    if tail.len() == 0 {
        assert(path.drop_last() =~= head);
        assert(tail =~= Seq::<u8>::empty());
    } else {
        lemma_split_tail(head, tail.drop_last());
        assert(path.drop_last() =~= head + seq![0x2fu8] + tail.drop_last());
        let before = split_path(head).push(tail.drop_last());
        assert(before.drop_last() =~= split_path(head));
        assert(tail.drop_last().push(tail.last()) =~= tail);
    }
}

/// A path without slashes is its only part.
pub proof fn lemma_split_whole(part: Seq<u8>)
    requires
        forall|k: int| 0 <= k < part.len() ==> part[k] != 0x2f,
    ensures
        split_path(part) == seq![part],
    decreases part.len(),
{
    if part.len() == 0 {
        assert(part =~= Seq::<u8>::empty());
    } else {
        lemma_split_whole(part.drop_last());
        assert(part.drop_last().push(part.last()) =~= part);
        assert(split_path(part) =~= seq![part]);
    }
}

/// A slash at the start adds an empty part.
proof fn lemma_split_rooted(rest: Seq<u8>)
    ensures
        split_path(seq![0x2fu8] + rest) == seq![Seq::<u8>::empty()] + split_path(rest),
    decreases rest.len(),
{
    let path = seq![0x2fu8] + rest;
    let empty = seq![Seq::<u8>::empty()];
    if rest.len() == 0 {
        reveal_with_fuel(split_path, 2);
        assert(path.drop_last() =~= Seq::<u8>::empty());
        assert(split_path(path) =~= empty + split_path(rest));
    } else {
        lemma_split_rooted(rest.drop_last());
        lemma_split(rest.drop_last());
        assert(path.drop_last() =~= seq![0x2fu8] + rest.drop_last());
        assert(split_path(path) =~= empty + split_path(rest));
    }
}

/// Parts that are joined are split again.
proof fn lemma_split_joined(parts: Seq<Seq<u8>>)
    requires
        parts.len() > 0,
        slash_free(parts),
    ensures
        split_path(joined(parts)) == parts,
    decreases parts.len(),
{
    let last = parts.last();
    assert forall|k: int| 0 <= k < last.len() implies last[k] != 0x2f by {
        assert(parts[parts.len() - 1][k] != 0x2f);
    }
    if parts.len() == 1 {
        lemma_split_whole(last);
        assert(parts =~= seq![last]);
    } else {
        let before = parts.drop_last();
        assert(slash_free(before)) by {
            assert forall|i: int, k: int|
                0 <= i < before.len() && 0 <= k < before[i].len() implies #[trigger] before[i][k]
                != 0x2f by {
                assert(parts[i][k] != 0x2f);
            }
        }
        lemma_split_joined(before);
        lemma_split_tail(joined(before), last);
        assert(before.push(last) =~= parts);
    }
}

/// What the components of a path are: without slashes, not empty, and no `.` behind the
/// first part of the path.
proof fn lemma_kept_parts(parts: Seq<Seq<u8>>)
    requires
        slash_free(parts),
    ensures
        slash_free(kept_parts(parts)),
        forall|i: int|
            0 <= i < kept_parts(parts).len() ==> (#[trigger] kept_parts(parts)[i]).len() > 0,
        forall|i: int|
            0 <= i < kept_parts(parts).len() && (i > 0 || parts[0].len() == 0) ==> !is_dot(
                #[trigger] kept_parts(parts)[i],
            ),
        parts.len() > 0 && parts[0].len() > 0 ==> kept_parts(parts).len() > 0
            && kept_parts(parts)[0] == parts[0],
        kept_parts(parts).len() <= parts.len(),
    decreases parts.len(),
{
    if parts.len() > 0 {
        let before = parts.drop_last();
        assert(slash_free(before)) by {
            assert forall|i: int, k: int|
                0 <= i < before.len() && 0 <= k < before[i].len() implies #[trigger] before[i][k]
                != 0x2f by {
                assert(parts[i][k] != 0x2f);
            }
        }
        lemma_kept_parts(before);
        let kept = kept_parts(before);
        let after = kept_parts(parts);
        assert forall|i: int, k: int|
            0 <= i < after.len() && 0 <= k < after[i].len() implies #[trigger] after[i][k] != 0x2f by {
            if i < kept.len() {
                assert(kept[i][k] != 0x2f);
            } else {
                assert(parts[parts.len() - 1][k] != 0x2f);
            }
        }
        assert forall|i: int| 0 <= i < after.len() && (i > 0 || parts[0].len() == 0) implies !is_dot(
            #[trigger] after[i],
        ) by {
            if i < kept.len() {
                assert(!is_dot(kept[i]));
            } else if parts.len() == 1 {
                assert(kept.len() == 0);
            }
        }
    }
}

/// Parts that are components are kept as they are.
proof fn lemma_components_are_kept(parts: Seq<Seq<u8>>)
    requires
        forall|i: int| 0 <= i < parts.len() ==> (#[trigger] parts[i]).len() > 0,
        forall|i: int| 0 < i < parts.len() ==> !is_dot(#[trigger] parts[i]),
    ensures
        kept_parts(parts) == parts,
    decreases parts.len(),
{
    if parts.len() == 0 {
        assert(parts =~= Seq::<Seq<u8>>::empty());
    } else {
        lemma_components_are_kept(parts.drop_last());
        assert(parts.drop_last().push(parts.last()) =~= parts);
        assert(parts[parts.len() - 1].len() > 0);
    }
}

/// Components behind a slash are kept as they are.
proof fn lemma_rooted_components_are_kept(parts: Seq<Seq<u8>>)
    requires
        forall|i: int| 0 <= i < parts.len() ==> (#[trigger] parts[i]).len() > 0,
        forall|i: int| 0 <= i < parts.len() ==> !is_dot(#[trigger] parts[i]),
    ensures
        kept_parts(seq![Seq::<u8>::empty()] + parts) == parts,
    decreases parts.len(),
{
    let empty = seq![Seq::<u8>::empty()];
    let all = empty + parts;
    if parts.len() == 0 {
        reveal_with_fuel(kept_parts, 2);
        assert(all.drop_last() =~= Seq::<Seq<u8>>::empty());
        assert(kept_parts(all) =~= parts);
    } else {
        lemma_rooted_components_are_kept(parts.drop_last());
        assert(all.drop_last() =~= empty + parts.drop_last());
        assert(parts.drop_last().push(parts.last()) =~= parts);
        assert(parts[parts.len() - 1].len() > 0);
    }
}

/// Normalizing a path changes nothing of where it leads: it begins at the root or not, and
/// has the same components. A normal path stays as it is.
pub proof fn law_normal_path_is_the_same_path(path: Seq<u8>)
    ensures
        is_rooted(normal_path(path)) == is_rooted(path),
        components(normal_path(path)) == components(path),
        normal_path(normal_path(path)) == normal_path(path),
        path.len() > 0 ==> normal_path(path).len() > 0,
{
    let parts = split_path(path);
    let kept = components(path);
    lemma_split(path);
    lemma_kept_parts(parts);
    let normal = normal_path(path);
    let text = joined(kept);
    if is_rooted(path) {
        lemma_split_rooted(text);
        if kept.len() == 0 {
            reveal_with_fuel(kept_parts, 2);
            let empty = seq![Seq::<u8>::empty()];
            assert(split_path(text) =~= empty);
            let all = empty + empty;
            assert(all.drop_last() =~= empty);
            assert(empty.drop_last() =~= Seq::<Seq<u8>>::empty());
            assert(kept_parts(empty) =~= Seq::<Seq<u8>>::empty());
            assert(kept_parts(all) =~= kept);
        } else {
            lemma_split_joined(kept);
            lemma_rooted_components_are_kept(kept);
        }
    } else if kept.len() == 0 {
        assert(path =~= Seq::<u8>::empty());
        assert(text =~= path);
    } else {
        lemma_split_joined(kept);
        lemma_components_are_kept(kept);
        lemma_split(text);
        assert(kept[0].len() > 0);
        assert(kept[0][0] != 0x2f);
    }
}

/// Paths have one normal form exactly where they are the same path: both begin at the root
/// or neither does, and they have the same components.
pub proof fn law_same_paths_have_one_normal_form(a: Seq<u8>, b: Seq<u8>)
    ensures
        normal_path(a) == normal_path(b) <==> is_rooted(a) == is_rooted(b) && components(a)
            == components(b),
{
    law_normal_path_is_the_same_path(a);
    law_normal_path_is_the_same_path(b);
}

/// A path with another behind it: one slash stands between the two, but none behind a path
/// that is empty or ends in a slash. A path that begins at the root stands for itself.
pub open spec fn join_path(base: Seq<u8>, rest: Seq<u8>) -> Seq<u8> {
    if is_rooted(rest) {
        rest
    } else if base.len() == 0 || base.last() == 0x2f {
        base + rest
    } else {
        base + seq![0x2fu8] + rest
    }
}

/// A path with another behind it.
pub fn join(base: &[u8], rest: &[u8]) -> (r: Vec<u8>)
    ensures
        r@ == join_path(base@, rest@),
{
    let mut path: Vec<u8> = Vec::new();
    if !(rest.len() > 0 && rest[0] == 0x2f) {
        path.extend_from_slice(base);
        if base.len() > 0 && base[base.len() - 1] != 0x2f {
            path.push(0x2f);
        }
    }
    path.extend_from_slice(rest);
    assert(path@ =~= join_path(base@, rest@));
    path
}

/// A name behind a path is one component more: joining a path with a part that holds no
/// slash, is not empty and is no `.` keeps where the path begins and its components, and
/// puts the part behind them.
pub proof fn law_joined_name_is_one_component(base: Seq<u8>, part: Seq<u8>)
    requires
        part.len() > 0,
        forall|k: int| 0 <= k < part.len() ==> part[k] != 0x2f,
        !is_dot(part),
    ensures
        components(join_path(base, part)) == components(base).push(part),
        is_rooted(join_path(base, part)) == is_rooted(base),
{
    let path = join_path(base, part);
    if base.len() == 0 {
        assert(path =~= part);
        lemma_split_whole(part);
        reveal_with_fuel(kept_parts, 2);
        assert(seq![part].drop_last() =~= Seq::<Seq<u8>>::empty());
        assert(split_path(base) =~= seq![Seq::<u8>::empty()]);
        assert(seq![Seq::<u8>::empty()].drop_last() =~= Seq::<Seq<u8>>::empty());
        assert(components(base) =~= Seq::<Seq<u8>>::empty());
        assert(components(path) =~= components(base).push(part));
    } else {
        let head = if base.last() == 0x2f {
            base.drop_last()
        } else {
            base
        };
        assert(path =~= head + seq![0x2fu8] + part);
        lemma_split_tail(head, part);
        lemma_split(head);
        let parts = split_path(head);
        assert(parts.push(part).drop_last() =~= parts);
        if base.last() == 0x2f {
            assert(parts.push(Seq::<u8>::empty()).drop_last() =~= parts);
        }
        assert(path[0] == base[0]);
    }
}

} // verus!
