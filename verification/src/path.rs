//! Paths. They are bytes: what the system takes for a path need not be text.

use vstd::prelude::*;
use vstd::slice::slice_subrange;
use vstd::string::StrSliceExecFns;
use vstd::utf8::encode_utf8;

verus! {

/// The separator of a path's components.
pub const SLASH: u8 = 0x2f;

/// The bytes of a text.
pub open spec fn bytes_of(text: Seq<char>) -> Seq<u8> {
    encode_utf8(text)
}

/// The bytes behind an optional path.
pub open spec fn optional_path(path: Option<Vec<u8>>) -> Option<Seq<u8>> {
    match path {
        Some(path) => Some(path@),
        None => None,
    }
}

/// The first position at or after `from` that holds a slash, or the length.
pub open spec fn slash_from(path: Seq<u8>, from: int) -> int
    decreases path.len() - from,
{
    if from >= path.len() {
        path.len() as int
    } else if path[from] == SLASH {
        from
    } else {
        slash_from(path, from + 1)
    }
}

/// A slash lies in the path or at its end.
pub proof fn lemma_slash_from(path: Seq<u8>, from: int)
    requires
        0 <= from <= path.len(),
    ensures
        from <= slash_from(path, from) <= path.len(),
    decreases path.len() - from,
{
    if from < path.len() && path[from] != SLASH {
        lemma_slash_from(path, from + 1);
    }
}

/// What stands between the slashes of a path from `start` on.
pub open spec fn pieces_from(path: Seq<u8>, start: int) -> Seq<Seq<u8>>
    decreases path.len() - start,
{
    if start < 0 || start > path.len() {
        Seq::empty()
    } else {
        let end = slash_from(path, start);
        proof {
            lemma_slash_from(path, start);
        }
        if end >= path.len() {
            seq![path.subrange(start, path.len() as int)]
        } else {
            seq![path.subrange(start, end)] + pieces_from(path, end + 1)
        }
    }
}

/// The pieces that are components: those that are not empty, and not a dot either,
/// unless the path begins with it.
pub open spec fn components_of(pieces: Seq<Seq<u8>>) -> Seq<Seq<u8>>
    decreases pieces.len(),
{
    if pieces.len() == 0 {
        Seq::empty()
    } else {
        let before = components_of(pieces.drop_last());
        let piece = pieces.last();
        if piece.len() > 0 && (piece != bytes_of("."@) || pieces.len() == 1) {
            before.push(piece)
        } else {
            before
        }
    }
}

/// The components of a path.
pub open spec fn components(path: Seq<u8>) -> Seq<Seq<u8>> {
    components_of(pieces_from(path, 0))
}

/// Whether a path begins at the root.
pub open spec fn absolute(path: Seq<u8>) -> bool {
    path.len() > 0 && path[0] == SLASH
}

/// The paths behind a list of slices.
pub open spec fn paths(parts: Seq<&[u8]>) -> Seq<Seq<u8>> {
    Seq::new(parts.len(), |i: int| parts[i]@)
}

fn is_text(bytes: &[u8], text: &str) -> (r: bool)
    ensures
        r == (bytes@ == bytes_of(text@)),
{
    let other: &[u8] = text.as_bytes();
    if bytes.len() != other.len() {
        return false;
    }
    let mut i: usize = 0;
    while i < bytes.len()
        invariant
            i <= bytes@.len(),
            bytes@.len() == other@.len(),
            other@ == bytes_of(text@),
            forall|j: int| 0 <= j < i ==> bytes@[j] == other@[j],
        decreases bytes@.len() - i,
    {
        if bytes[i] != other[i] {
            return false;
        }
        i += 1;
    }
    assert(bytes@ =~= other@);
    true
}

fn find_slash(path: &[u8], from: usize) -> (r: usize)
    requires
        from <= path@.len(),
    ensures
        r == slash_from(path@, from as int),
        from <= r <= path@.len(),
{
    let mut i: usize = from;
    while i < path.len()
        invariant
            from <= i <= path@.len(),
            slash_from(path@, from as int) == slash_from(path@, i as int),
        decreases path@.len() - i,
    {
        if path[i] == SLASH {
            return i;
        }
        i += 1;
    }
    i
}

fn split_pieces<'a>(path: &'a [u8]) -> (r: Vec<&'a [u8]>)
    ensures
        paths(r@) == pieces_from(path@, 0),
{
    let mut r: Vec<&'a [u8]> = Vec::new();
    let mut start: usize = 0;
    assert(paths(r@) + pieces_from(path@, 0) =~= pieces_from(path@, 0));
    loop
        invariant
            start <= path@.len(),
            paths(r@) + pieces_from(path@, start as int) == pieces_from(path@, 0),
        decreases path@.len() - start,
    {
        let end: usize = find_slash(path, start);
        let ghost before = paths(r@);
        let piece = slice_subrange(path, start, end);
        r.push(piece);
        if end >= path.len() {
            assert(paths(r@) =~= before + pieces_from(path@, start as int));
            return r;
        }
        assert(paths(r@) + pieces_from(path@, end + 1) =~= before + pieces_from(
            path@,
            start as int,
        ));
        start = end + 1;
    }
}

fn split_components<'a>(path: &'a [u8]) -> (r: Vec<&'a [u8]>)
    ensures
        paths(r@) == components(path@),
{
    let pieces: Vec<&'a [u8]> = split_pieces(path);
    let ghost seen = paths(pieces@);
    let mut r: Vec<&'a [u8]> = Vec::new();
    let mut i: usize = 0;
    assert(paths(r@) =~= components_of(seen.take(0)));
    while i < pieces.len()
        invariant
            i <= pieces@.len(),
            seen == paths(pieces@),
            paths(r@) == components_of(seen.take(i as int)),
        decreases pieces@.len() - i,
    {
        let piece: &'a [u8] = pieces[i];
        let ghost before = paths(r@);
        assert(seen.take(i + 1).drop_last() =~= seen.take(i as int));
        assert(seen.take(i + 1).last() == piece@);
        if piece.len() > 0 && (!is_text(piece, ".") || i == 0) {
            r.push(piece);
            assert(paths(r@) =~= before.push(piece@));
        }
        i += 1;
    }
    assert(seen.take(i as int) =~= seen);
    r
}

/// Whether a path leads to a graphics device: it begins at the root, and its first
/// two components are `dev` and `dri`.
pub open spec fn graphics_device(target: Seq<u8>) -> bool {
    let parts = components(target);
    &&& absolute(target)
    &&& parts.len() >= 2
    &&& parts[0] == bytes_of("dev"@)
    &&& parts[1] == bytes_of("dri"@)
}

/// Whether a descriptor's link leads to a graphics device.
pub fn is_graphics_device(target: &[u8]) -> (r: bool)
    ensures
        r == graphics_device(target@),
{
    let parts: Vec<&[u8]> = split_components(target);
    let ghost seen = paths(parts@);
    if target.len() == 0 || target[0] != SLASH || parts.len() < 2 {
        return false;
    }
    assert(seen[0] == parts@[0]@ && seen[1] == parts@[1]@);
    is_text(parts[0], "dev") && is_text(parts[1], "dri")
}

/// Components one after the other, each with a slash behind it.
pub open spec fn followed_by_slashes(parts: Seq<Seq<u8>>) -> Seq<u8>
    decreases parts.len(),
{
    if parts.len() == 0 {
        Seq::empty()
    } else {
        (followed_by_slashes(parts.drop_last()) + parts.last()).push(SLASH)
    }
}

/// The root of `sysfs`: the directory `sys` beside the root of `procfs`, so `/sys`
/// beside `/proc`. Beside a path without components it is `/sys` too.
pub open spec fn sys_root_of(proc_root: Seq<u8>) -> Seq<u8> {
    let parts = components(proc_root);
    if parts.len() == 0 {
        bytes_of("/sys"@)
    } else if absolute(proc_root) {
        seq![SLASH] + followed_by_slashes(parts.drop_last()) + bytes_of("sys"@)
    } else {
        followed_by_slashes(parts.drop_last()) + bytes_of("sys"@)
    }
}

fn push_all(out: &mut Vec<u8>, more: &[u8])
    ensures
        final(out)@ == old(out)@ + more@,
{
    let ghost start = out@;
    let mut i: usize = 0;
    assert(out@ =~= start + more@.take(0));
    while i < more.len()
        invariant
            i <= more@.len(),
            out@ == start + more@.take(i as int),
        decreases more@.len() - i,
    {
        out.push(more[i]);
        assert(out@ =~= start + more@.take(i + 1));
        i += 1;
    }
    assert(more@.take(i as int) =~= more@);
}

/// The root of `sysfs`, by the root of `procfs`.
pub fn sys_root(proc_root: &[u8]) -> (r: Vec<u8>)
    ensures
        r@ == sys_root_of(proc_root@),
{
    let parts: Vec<&[u8]> = split_components(proc_root);
    let ghost seen = paths(parts@);
    if parts.len() == 0 {
        return "/sys".as_bytes_vec();
    }
    let mut above: Vec<u8> = Vec::new();
    let mut i: usize = 0;
    let ghost kept = seen.drop_last();
    assert(above@ =~= followed_by_slashes(kept.take(0)));
    while i < parts.len() - 1
        invariant
            i < parts@.len(),
            seen == paths(parts@),
            kept == seen.drop_last(),
            above@ == followed_by_slashes(kept.take(i as int)),
        decreases parts@.len() - i,
    {
        assert(kept.take(i + 1).drop_last() =~= kept.take(i as int));
        assert(kept.take(i + 1).last() == parts@[i as int]@);
        push_all(&mut above, parts[i]);
        above.push(SLASH);
        i += 1;
    }
    assert(kept.take(i as int) =~= kept);
    let mut r: Vec<u8> = Vec::new();
    if proc_root.len() > 0 && proc_root[0] == SLASH {
        r.push(SLASH);
        assert(r@ =~= seq![SLASH]);
        push_all(&mut r, above.as_slice());
    } else {
        push_all(&mut r, above.as_slice());
        assert(r@ =~= above@);
    }
    push_all(&mut r, "sys".as_bytes());
    r
}

/// A path that was given, or a default.
pub open spec fn path_or(given: Option<Seq<u8>>, default: Seq<char>) -> Seq<u8> {
    match given {
        Some(path) => path,
        None => bytes_of(default),
    }
}

/// A path that was given, or a default.
pub fn root_or_default(given: &Option<Vec<u8>>, default: &str) -> (r: Vec<u8>)
    ensures
        r@ == path_or(optional_path(*given), default@),
{
    match given {
        Some(path) => {
            let mut r: Vec<u8> = Vec::new();
            push_all(&mut r, path.as_slice());
            assert(r@ =~= path@);
            r
        },
        None => default.as_bytes_vec(),
    }
}

proof fn lemma_slash_at(path: Seq<u8>, from: int, at: int)
    requires
        0 <= from <= at <= path.len(),
        forall|i: int| from <= i < at ==> #[trigger] path[i] != SLASH,
        at < path.len() ==> path[at] == SLASH,
    ensures
        slash_from(path, from) == at,
    decreases at - from,
{
    if from < at {
        lemma_slash_at(path, from + 1, at);
    }
}

proof fn lemma_pieces_behind(path: Seq<u8>, name: Seq<u8>, from: int)
    requires
        0 <= from <= path.len(),
        forall|i: int| 0 <= i < name.len() ==> #[trigger] name[i] != 0x2f,
    ensures
        pieces_from(path.push(0x2f) + name, from) == pieces_from(path, from).push(name),
    decreases path.len() - from,
{
    let whole = path.push(0x2f) + name;
    lemma_slash_from(path, from);
    lemma_slash_found(path, from);
    let end = slash_from(path, from);
    assert forall|i: int| from <= i < end implies #[trigger] whole[i] != SLASH by {
        assert(whole[i] == path[i]);
    }
    lemma_slash_at(whole, from, end);
    assert(whole.subrange(from, end) =~= path.subrange(from, end));
    if end < path.len() {
        lemma_pieces_behind(path, name, end + 1);
        assert(pieces_from(whole, from) =~= pieces_from(path, from).push(name));
    } else {
        assert forall|i: int| end + 1 <= i < whole.len() implies #[trigger] whole[i] != SLASH by {
            assert(whole[i] == name[i - end - 1]);
        }
        lemma_slash_at(whole, end + 1, whole.len() as int);
        assert(whole.subrange(end + 1, whole.len() as int) =~= name);
        assert(pieces_from(whole, end + 1) =~= seq![name]);
        assert(pieces_from(whole, from) =~= pieces_from(path, from).push(name));
    }
}

proof fn lemma_slash_found(path: Seq<u8>, from: int)
    requires
        0 <= from <= path.len(),
    ensures
        forall|i: int| from <= i < slash_from(path, from) ==> #[trigger] path[i] != SLASH,
        slash_from(path, from) < path.len() ==> path[slash_from(path, from)] == SLASH,
    decreases path.len() - from,
{
    if from < path.len() && path[from] != SLASH {
        lemma_slash_found(path, from + 1);
    }
}

proof fn lemma_some_piece(path: Seq<u8>)
    ensures
        pieces_from(path, 0).len() > 0,
{
    lemma_slash_from(path, 0);
}

/// A name behind a slash is one component more, unless it is empty or a dot, which add
/// nothing.
pub proof fn law_a_name_is_a_component_more(path: Seq<u8>, name: Seq<u8>)
    requires
        forall|i: int| 0 <= i < name.len() ==> #[trigger] name[i] != 0x2f,
    ensures
        name.len() > 0 && name != encode_utf8("."@) ==> components(path.push(0x2f) + name)
            == components(path).push(name),
        name.len() == 0 || name == encode_utf8("."@) ==> components(path.push(0x2f) + name)
            == components(path),
{
    lemma_pieces_behind(path, name, 0);
    lemma_some_piece(path);
    let pieces = pieces_from(path, 0);
    assert(pieces.push(name).drop_last() =~= pieces);
}

/// An empty path has no components.
pub proof fn law_an_empty_path_has_no_components()
    ensures
        components(Seq::empty()).len() == 0,
{
    let none = Seq::<u8>::empty();
    let pieces = pieces_from(none, 0);
    assert(slash_from(none, 0) == 0);
    assert(none.subrange(0, 0) =~= none);
    assert(pieces =~= seq![none]);
    assert(pieces.drop_last() =~= Seq::<Seq<u8>>::empty());
    assert(pieces.last().len() == 0);
    assert(components_of(pieces.drop_last()).len() == 0);
    assert(components(none) == components_of(pieces));
}

/// The root of `sysfs` stands beside that of `procfs`: beside a directory in the root it is
/// `/sys`, and beside one behind other components it is `sys` behind the same.
pub proof fn law_sys_stands_beside_proc(above: Seq<u8>, name: Seq<u8>)
    requires
        forall|i: int| 0 <= i < name.len() ==> #[trigger] name[i] != 0x2f,
        name.len() > 0,
        name != encode_utf8("."@),
    ensures
        ({
            let root = sys_root_of(above.push(0x2f) + name);
            &&& above.len() == 0 ==> root == seq![0x2fu8] + encode_utf8("sys"@)
            &&& components(above).len() == 1 && above.len() > 0 && above[0] == 0x2f ==> root
                == seq![0x2fu8] + components(above)[0] + seq![0x2fu8] + encode_utf8("sys"@)
            &&& components(above).len() == 1 && above.len() > 0 && above[0] != 0x2f ==> root
                == components(above)[0] + seq![0x2fu8] + encode_utf8("sys"@)
        }),
        sys_root_of(Seq::empty()) == encode_utf8("/sys"@),
{
    let path = above.push(0x2f) + name;
    let none = Seq::<Seq<u8>>::empty();
    law_a_name_is_a_component_more(above, name);
    law_an_empty_path_has_no_components();
    assert(components(path).drop_last() =~= components(above));
    assert(path[0] == if above.len() > 0 {
        above[0]
    } else {
        0x2f
    });
    assert(followed_by_slashes(none) =~= Seq::<u8>::empty());
    if above.len() == 0 {
        assert(above =~= Seq::<u8>::empty());
        assert(components(above) =~= none);
        assert(sys_root_of(path) =~= seq![0x2fu8] + encode_utf8("sys"@));
    } else if components(above).len() == 1 {
        let parts = components(above);
        assert(parts.drop_last() =~= none);
        assert(followed_by_slashes(parts) =~= parts[0] + seq![0x2fu8]);
        if above[0] == 0x2f {
            assert(sys_root_of(path) =~= seq![0x2fu8] + parts[0] + seq![0x2fu8] + encode_utf8(
                "sys"@,
            ));
        }
    }
}

/// A path that begins at the root leads to a graphics device just if its first components
/// are `dev` and `dri`; one that does not begin there leads to none.
pub proof fn law_graphics_devices_lie_below_dri(above: Seq<u8>, name: Seq<u8>)
    requires
        forall|i: int| 0 <= i < name.len() ==> #[trigger] name[i] != 0x2f,
        name.len() > 0,
        name != encode_utf8("."@),
    ensures
        ({
            let path = above.push(0x2f) + name;
            let parts = components(above);
            &&& path[0] != 0x2f ==> !graphics_device(path)
            &&& path[0] == 0x2f && parts.len() >= 2 ==> (graphics_device(path) <==> parts[0]
                == encode_utf8("dev"@) && parts[1] == encode_utf8("dri"@))
            &&& path[0] == 0x2f && parts.len() == 1 ==> (graphics_device(path) <==> parts[0]
                == encode_utf8("dev"@) && name == encode_utf8("dri"@))
            &&& parts.len() == 0 ==> !graphics_device(path)
        }),
{
    law_a_name_is_a_component_more(above, name);
}

} // verus!
