//! Unix paths as byte strings: joining, components, extensions.

use vstd::prelude::*;
use vstd::utf8::is_ascii_chars_encode_utf8;

use crate::bytes::{
    law_split_loses_nothing, lemma_split_nonempty, pieces, push_bytes, ranges_in, same, split,
    split_spec, text,
};

verus! {

/// `path` put below `base`, as `Path::join` does: an absolute `path` stands alone,
/// any other follows `base` with one separator between them.
pub open spec fn joined_path(base: Seq<u8>, path: Seq<u8>) -> Seq<u8> {
    if path.len() > 0 && path[0] == '/' as u8 {
        path
    } else if base.len() > 0 && base.last() != '/' as u8 {
        base.push('/' as u8) + path
    } else {
        base + path
    }
}

/// Puts `path` below `base`.
pub fn join(base: &[u8], path: &[u8]) -> (r: Vec<u8>)
    ensures
        r@ == joined_path(base@, path@),
{
    let mut r: Vec<u8> = Vec::new();
    if path.len() > 0 && path[0] == '/' as u8 {
        push_bytes(&mut r, path);
        assert(r@ =~= path@);
        return r;
    }
    push_bytes(&mut r, base);
    assert(r@ =~= base@);
    if base.len() > 0 && base[base.len() - 1] != '/' as u8 {
        r.push('/' as u8);
    }
    push_bytes(&mut r, path);
    r
}

/// A piece of a path that names something: not empty and not the current directory.
pub open spec fn is_name(piece: Seq<u8>) -> bool {
    piece.len() > 0 && piece != text(".")
}

/// The components of a path. The first one is empty for the root of an absolute
/// path, and may be `.` in a relative one; no other is empty or `.`.
pub open spec fn components(path: Seq<u8>) -> Seq<Seq<u8>> {
    let pieces = split_spec(path, '/' as u8);
    if path.len() == 0 {
        Seq::empty()
    } else {
        seq![pieces[0]] + pieces.drop_first().filter(|piece: Seq<u8>| is_name(piece))
    }
}

/// Whether `path` lies at or below `base`: only whole components match.
pub open spec fn is_below(path: Seq<u8>, base: Seq<u8>) -> bool {
    components(base).is_prefix_of(components(path))
}

/// The ranges of the components of `path`.
fn component_ranges(path: &[u8]) -> (r: Vec<(usize, usize)>)
    ensures
        ranges_in(r@, path@.len()),
        pieces(path@, r@) == components(path@),
{
    let mut r: Vec<(usize, usize)> = Vec::new();
    if path.len() == 0 {
        assert(pieces(path@, r@) =~= components(path@));
        return r;
    }
    let cut = split(path, '/' as u8);
    let ghost all = split_spec(path@, '/' as u8);
    let ghost named = |piece: Seq<u8>| is_name(piece);
    r.push(cut[0]);
    let mut i: usize = 1;
    proof {
        assert(all[0] == path@.subrange(cut@[0].0 as int, cut@[0].1 as int));
        assert(all.drop_first().take(0) =~= Seq::empty());
        reveal(Seq::filter);
        assert(pieces(path@, r@) =~= seq![all[0]] + all.drop_first().take(0).filter(named));
    }
    while i < cut.len()
        invariant
            1 <= i <= cut@.len(),
            ranges_in(cut@, path@.len()),
            ranges_in(r@, path@.len()),
            all == pieces(path@, cut@),
            named == (|piece: Seq<u8>| is_name(piece)),
            pieces(path@, r@) == seq![all[0]] + all.drop_first().take(i - 1).filter(named),
        decreases cut@.len() - i,
    {
        let (start, end) = cut[i];
        let piece = &path[start..end];
        let ghost r0 = r@;
        let ghost done = all.drop_first().take(i - 1);
        proof {
            assert(all[i as int] == piece@);
            assert(all.drop_first().take(i as int) =~= done.push(piece@));
            assert(done.push(piece@).drop_last() =~= done);
            reveal(Seq::filter);
        }
        if piece.len() > 0 && !same(piece, ".".as_bytes()) {
            r.push((start, end));
            assert(pieces(path@, r@) =~= pieces(path@, r0).push(piece@));
        }
        i += 1;
    }
    proof {
        assert(all.drop_first().take(i - 1) =~= all.drop_first());
    }
    r
}

/// Whether `path` lies at or below `base`.
pub fn starts_with(path: &[u8], base: &[u8]) -> (r: bool)
    ensures
        r == is_below(path@, base@),
{
    let above = component_ranges(base);
    let below = component_ranges(path);
    proof {
        assert(components(base@).len() == above@.len());
        assert(components(path@).len() == below@.len());
    }
    if above.len() > below.len() {
        return false;
    }
    let mut i: usize = 0;
    while i < above.len()
        invariant
            i <= above@.len() <= below@.len(),
            ranges_in(above@, base@.len()),
            ranges_in(below@, path@.len()),
            pieces(base@, above@) == components(base@),
            pieces(path@, below@) == components(path@),
            forall|k: int| 0 <= k < i ==> components(base@)[k] == components(path@)[k],
        decreases above@.len() - i,
    {
        let (a, b) = above[i];
        let (c, d) = below[i];
        assert(components(base@)[i as int] == base@.subrange(a as int, b as int));
        assert(components(path@)[i as int] == path@.subrange(c as int, d as int));
        if !same(&base[a..b], &path[c..d]) {
            return false;
        }
        i += 1;
    }
    assert(components(base@) =~= components(path@).subrange(0, above@.len() as int));
    true
}

/// The name of the file that a path ends in: its last component, unless that is the
/// root, the current directory or the parent directory.
pub open spec fn file_name(path: Seq<u8>) -> Option<Seq<u8>> {
    let parts = components(path);
    if parts.len() > 0 && is_name(parts.last()) && parts.last() != text("..") {
        Some(parts.last())
    } else {
        None
    }
}

/// What follows the last dot of a file name, unless that dot starts the name.
pub open spec fn name_extension(name: Seq<u8>) -> Option<Seq<u8>> {
    let parts = split_spec(name, '.' as u8);
    if parts.len() >= 3 || (parts.len() == 2 && parts[0].len() > 0) {
        Some(parts.last())
    } else {
        None
    }
}

/// The extension of the file that a path ends in.
pub open spec fn path_extension(path: Seq<u8>) -> Option<Seq<u8>> {
    match file_name(path) {
        Some(name) => name_extension(name),
        None => None,
    }
}

/// The extension of the file that `path` ends in.
pub fn extension(path: &[u8]) -> (r: Option<&[u8]>)
    ensures
        match r {
            Some(ext) => path_extension(path@) == Some(ext@),
            None => path_extension(path@) is None,
        },
{
    let parts = component_ranges(path);
    assert(components(path@).len() == parts@.len());
    if parts.len() == 0 {
        return None;
    }
    let (start, end) = parts[parts.len() - 1];
    let name = &path[start..end];
    assert(components(path@).last() == name@);
    if name.len() == 0 || same(name, ".".as_bytes()) || same(name, "..".as_bytes()) {
        return None;
    }
    let cut = split(name, '.' as u8);
    let ghost all = split_spec(name@, '.' as u8);
    assert(all.len() == cut@.len());
    if cut.len() < 2 {
        return None;
    }
    assert(all[0] == name@.subrange(cut@[0].0 as int, cut@[0].1 as int));
    if cut.len() == 2 && cut[0].0 == cut[0].1 {
        return None;
    }
    let (from, to) = cut[cut.len() - 1];
    assert(all.last() == name@.subrange(from as int, to as int));
    Some(&name[from..to])
}

/// Splitting at a separator inside a string splits the two sides.
pub proof fn lemma_split_concat(a: Seq<u8>, b: Seq<u8>, sep: u8)
    ensures
        split_spec(a.push(sep) + b, sep) == split_spec(a, sep) + split_spec(b, sep),
    decreases b.len(),
{
    let s = a.push(sep) + b;
    if b.len() == 0 {
        assert(s.drop_last() =~= a);
        assert(split_spec(s, sep) =~= split_spec(a, sep) + split_spec(b, sep));
    } else {
        lemma_split_concat(a, b.drop_last(), sep);
        lemma_split_nonempty(b.drop_last(), sep);
        assert(s.drop_last() =~= a.push(sep) + b.drop_last());
        assert(split_spec(s, sep) =~= split_spec(a, sep) + split_spec(b, sep));
    }
}

/// A string without separators is one piece.
pub proof fn lemma_split_whole(s: Seq<u8>, sep: u8)
    requires
        forall|i: int| 0 <= i < s.len() ==> s[i] != sep,
    ensures
        split_spec(s, sep) == seq![s],
    decreases s.len(),
{
    if s.len() > 0 {
        lemma_split_whole(s.drop_last(), sep);
        assert(s.drop_last().push(s.last()) =~= s);
        assert(split_spec(s, sep) =~= seq![s]);
    } else {
        assert(s =~= Seq::empty());
    }
}

/// What is joined below a directory lies below it.
pub proof fn law_join_stays_below(base: Seq<u8>, path: Seq<u8>)
    requires
        base.len() > 0,
        path.len() == 0 || path[0] != '/' as u8,
    ensures
        is_below(joined_path(base, path), base),
{
    let sep = '/' as u8;
    let named = |piece: Seq<u8>| is_name(piece);
    let above = if base.last() == sep {
        base.drop_last()
    } else {
        base
    };
    let all = joined_path(base, path);
    assert(all =~= above.push(sep) + path);
    lemma_split_concat(above, path, sep);
    lemma_split_nonempty(above, sep);
    let outer = split_spec(above, sep);
    let inner = split_spec(path, sep);
    assert(split_spec(all, sep).drop_first() =~= outer.drop_first() + inner);
    Seq::filter_distributes_over_add(outer.drop_first(), inner, named);
    if base.last() == sep {
        let none = Seq::<Seq<u8>>::empty().push(Seq::empty());
        assert(split_spec(base, sep).drop_first() =~= outer.drop_first() + none);
        Seq::filter_distributes_over_add(outer.drop_first(), none, named);
        reveal_with_fuel(Seq::filter, 2);
        assert(none.drop_last() =~= Seq::empty());
        assert(!named(none.last()));
        assert(none.filter(named) =~= Seq::empty());
    }
    assert(components(base) =~= components(all).subrange(0, components(base).len() as int));
}

/// A name joined below a directory becomes the last component.
pub proof fn law_join_appends_name(base: Seq<u8>, name: Seq<u8>)
    requires
        base.len() > 0,
        is_name(name),
        forall|i: int| 0 <= i < name.len() ==> name[i] != '/' as u8,
    ensures
        components(joined_path(base, name)) == components(base).push(name),
{
    let sep = '/' as u8;
    let named = |piece: Seq<u8>| is_name(piece);
    let above = if base.last() == sep {
        base.drop_last()
    } else {
        base
    };
    let all = joined_path(base, name);
    assert(all =~= above.push(sep) + name);
    lemma_split_concat(above, name, sep);
    lemma_split_whole(name, sep);
    lemma_split_nonempty(above, sep);
    let outer = split_spec(above, sep);
    reveal_with_fuel(Seq::filter, 2);
    assert(split_spec(all, sep).drop_first() =~= outer.drop_first().push(name));
    assert(outer.drop_first().push(name).drop_last() =~= outer.drop_first());
    assert(named(name));
    if base.last() == sep {
        let none = Seq::<u8>::empty();
        assert(base =~= above.push(sep));
        assert(split_spec(base, sep).drop_first() =~= outer.drop_first().push(none));
        assert(outer.drop_first().push(none).drop_last() =~= outer.drop_first());
        assert(!named(none));
    }
    assert(components(all) =~= components(base).push(name));
}

/// Joining takes every byte over as it stands, with one separator between the two.
pub proof fn law_join_is_exact(base: Seq<u8>, path: Seq<u8>)
    requires
        base.len() > 0,
        base.last() != '/' as u8,
        path.len() == 0 || path[0] != '/' as u8,
    ensures
        joined_path(base, path) == base + seq!['/' as u8] + path,
        joined_path(base + seq!['/' as u8], path) == base + seq!['/' as u8] + path,
{
    assert(base.push('/' as u8) + path =~= base + seq!['/' as u8] + path);
}

/// `part` can be a part of a canonical path: a name without separators.
pub open spec fn is_part(part: Seq<u8>) -> bool {
    &&& part.len() > 0
    &&& part != seq!['.' as u8]
    &&& forall|i: int| 0 <= i < part.len() ==> part[i] != '/' as u8
}

/// The canonical path made of `parts`, each after a separator.
pub open spec fn path_of(parts: Seq<Seq<u8>>) -> Seq<u8>
    decreases parts.len(),
{
    if parts.len() == 0 {
        Seq::empty()
    } else {
        path_of(parts.drop_last()) + seq!['/' as u8] + parts.last()
    }
}

/// A canonical path has the parts that it is made of.
proof fn lemma_components_of_parts(parts: Seq<Seq<u8>>)
    requires
        parts.len() > 0,
        forall|i: int| 0 <= i < parts.len() ==> is_part(#[trigger] parts[i]),
    ensures
        path_of(parts).len() > 0,
        path_of(parts).last() != '/' as u8,
        components(path_of(parts)) == seq![Seq::<u8>::empty()] + parts,
    decreases parts.len(),
{
    let name = parts.last();
    let slash = seq!['/' as u8];
    assert(is_part(parts[parts.len() - 1]));
    reveal_strlit(".");
    is_ascii_chars_encode_utf8("."@);
    assert(text(".") =~= seq!['.' as u8]);
    assert(is_name(name));
    let all = path_of(parts);
    assert(all.last() == name.last());
    if parts.len() == 1 {
        assert(path_of(parts.drop_last()) =~= Seq::empty());
        assert(all =~= joined_path(slash, name));
        law_join_appends_name(slash, name);
        lemma_components_of_root();
        assert(seq![Seq::<u8>::empty()].push(name) =~= seq![Seq::<u8>::empty()] + parts);
    } else {
        let upper = parts.drop_last();
        assert forall|i: int| 0 <= i < upper.len() implies is_part(#[trigger] upper[i]) by {
            assert(upper[i] == parts[i]);
        }
        lemma_components_of_parts(upper);
        let base = path_of(upper);
        assert(all =~= joined_path(base, name));
        law_join_appends_name(base, name);
        assert((seq![Seq::<u8>::empty()] + upper).push(name) =~= seq![Seq::<u8>::empty()] + parts);
    }
}

/// The root has one component, the empty one.
proof fn lemma_components_of_root()
    ensures
        components(seq!['/' as u8]) == seq![Seq::<u8>::empty()],
{
    let slash = seq!['/' as u8];
    let none = Seq::<Seq<u8>>::empty().push(Seq::empty());
    let named = |piece: Seq<u8>| is_name(piece);
    assert(slash.drop_last() =~= Seq::<u8>::empty());
    assert(split_spec(Seq::<u8>::empty(), '/' as u8) == seq![Seq::<u8>::empty()]);
    assert(split_spec(slash, '/' as u8) == split_spec(slash.drop_last(), '/' as u8).push(
        Seq::empty(),
    ));
    assert(split_spec(slash, '/' as u8).drop_first() =~= none);
    reveal_with_fuel(Seq::filter, 2);
    assert(none.drop_last() =~= Seq::empty());
    assert(!named(none.last()));
    assert(none.filter(named) =~= Seq::empty());
    assert(components(slash) =~= seq![Seq::<u8>::empty()]);
}

/// A canonical path lies below another exactly when it starts with all the parts of it,
/// byte for byte: neither a name that only starts like one of them nor one in another
/// case will do. Every canonical path lies below the root of the file system.
pub proof fn law_below_means_same_parts(path: Seq<Seq<u8>>, base: Seq<Seq<u8>>)
    requires
        path.len() > 0,
        base.len() > 0,
        forall|i: int| 0 <= i < path.len() ==> is_part(#[trigger] path[i]),
        forall|i: int| 0 <= i < base.len() ==> is_part(#[trigger] base[i]),
    ensures
        is_below(path_of(path), path_of(base)) <==> base.len() <= path.len() && forall|i: int|
            0 <= i < base.len() ==> #[trigger] base[i] == path[i],
        is_below(path_of(path), seq!['/' as u8]),
{
    lemma_components_of_parts(path);
    lemma_components_of_parts(base);
    lemma_components_of_root();
    let root = seq![Seq::<u8>::empty()];
    let upper = root + base;
    let lower = root + path;
    assert(root =~= lower.subrange(0, 1));
    if is_below(path_of(path), path_of(base)) {
        assert forall|i: int| 0 <= i < base.len() implies #[trigger] base[i] == path[i] by {
            assert(upper[i + 1] == lower.subrange(0, upper.len() as int)[i + 1]);
        }
    }
    if base.len() <= path.len() && forall|i: int|
        0 <= i < base.len() ==> #[trigger] base[i] == path[i] {
        assert forall|i: int| 0 <= i < upper.len() implies upper[i] == lower[i] by {
            if i > 0 {
                assert(base[i - 1] == path[i - 1]);
            }
        }
        assert(upper =~= lower.subrange(0, upper.len() as int));
    }
}

/// The extension of a file is what follows the last dot of its name, byte for byte.
pub proof fn law_extension_follows_the_last_dot(dir: Seq<u8>, stem: Seq<u8>, ext: Seq<u8>)
    requires
        dir.len() > 0,
        stem.len() > 0,
        stem != seq!['.' as u8] || ext.len() > 0,
        forall|i: int| 0 <= i < stem.len() ==> stem[i] != '/' as u8,
        forall|i: int| 0 <= i < ext.len() ==> ext[i] != '/' as u8 && ext[i] != '.' as u8,
    ensures
        path_extension(joined_path(dir, stem + seq!['.' as u8] + ext)) == Some(ext),
{
    let dot = '.' as u8;
    let name = stem + seq![dot] + ext;
    reveal_strlit(".");
    is_ascii_chars_encode_utf8("."@);
    reveal_strlit("..");
    is_ascii_chars_encode_utf8(".."@);
    assert(text(".").len() == 1 && text("..").len() == 2);
    assert(name.len() >= 2);
    if name == text("..") {
        assert(stem =~= seq![dot]);
    }
    law_join_appends_name(dir, name);
    assert(name =~= stem.push(dot) + ext);
    lemma_split_concat(stem, ext, dot);
    lemma_split_whole(ext, dot);
    lemma_split_nonempty(stem, dot);
    let parts = split_spec(name, dot);
    assert(parts.last() == ext);
    if parts.len() == 2 {
        let before = split_spec(stem, dot);
        assert(before.len() == 1);
        law_split_loses_nothing(stem, dot);
        assert(before[0] == stem);
    }
}

/// A name without a dot has no extension, and neither has one whose only dot comes first.
pub proof fn law_no_extension_without_a_dot(dir: Seq<u8>, name: Seq<u8>)
    requires
        dir.len() > 0,
        name.len() > 0,
        forall|i: int| 0 <= i < name.len() ==> name[i] != '/' as u8 && name[i] != '.' as u8,
    ensures
        path_extension(joined_path(dir, name)) is None,
        path_extension(joined_path(dir, seq!['.' as u8] + name)) is None,
{
    let dot = '.' as u8;
    let none = Seq::<u8>::empty();
    reveal_strlit(".");
    is_ascii_chars_encode_utf8("."@);
    reveal_strlit("..");
    is_ascii_chars_encode_utf8(".."@);
    assert(text(".").len() == 1 && text("..").len() == 2);
    assert(text(".")[0] == dot && text("..")[0] == dot && text("..")[1] == dot);
    law_join_appends_name(dir, name);
    lemma_split_whole(name, dot);
    let hidden = seq![dot] + name;
    assert(hidden[1] == name[0]);
    assert forall|i: int| 0 <= i < hidden.len() implies hidden[i] != '/' as u8 by {
        if i > 0 {
            assert(hidden[i] == name[i - 1]);
        }
    }
    law_join_appends_name(dir, hidden);
    assert(hidden =~= none.push(dot) + name);
    lemma_split_concat(none, name, dot);
    assert(split_spec(none, dot) == seq![none]);
    assert(split_spec(hidden, dot) =~= seq![none, name]);
}

/// What the functions on paths return, for a canonical base and a relative path.
pub proof fn law_path_functions_return_paths(
    base: &[u8],
    path: &[u8],
    joined: Vec<u8>,
    below: bool,
    ext: Option<&[u8]>,
)
    requires
        call_ensures(join, (base, path), joined),
        call_ensures(starts_with, (path, base), below),
        call_ensures(extension, (path,), ext),
    ensures
        joined@ == joined_path(base@, path@),
        below <==> is_below(path@, base@),
        match ext {
            Some(found) => path_extension(path@) == Some(found@),
            None => path_extension(path@) is None,
        },
{
}

} // verus!
