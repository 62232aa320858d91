//! Unix path text: joining as `PathBuf::push` does, and lexical normalization
//! of `.` and `..` components.
use vstd::prelude::*;

use crate::text::{chars_of, push_char, push_chars, push_str, string_of};

verus! {

/// Whether the path is absolute (starts at the root).
pub open spec fn is_absolute(p: Seq<char>) -> bool {
    p.len() > 0 && p[0] == '/'
}

/// `base.join(p)`: an absolute `p` replaces `base`; otherwise a separator is
/// put between them unless `base` is empty or already ends in one.
pub open spec fn path_join(base: Seq<char>, p: Seq<char>) -> Seq<char> {
    if is_absolute(p) {
        p
    } else if base.len() > 0 && base.last() != '/' {
        base + seq!['/'] + p
    } else {
        base + p
    }
}

/// Joins `names` with `/` between them.
pub open spec fn join_names(names: Seq<Seq<char>>) -> Seq<char>
    decreases names.len(),
{
    if names.len() == 0 {
        Seq::empty()
    } else if names.len() == 1 {
        names[0]
    } else {
        join_names(names.drop_last()) + seq!['/'] + names.last()
    }
}

/// The effect of one path component on the normalized component list:
/// empty and `.` components vanish, `..` drops the last name, any other
/// component is appended.
pub open spec fn norm_step(names: Seq<Seq<char>>, piece: Seq<char>) -> Seq<Seq<char>> {
    if piece.len() == 0 || piece == seq!['.'] {
        names
    } else if piece == seq!['.', '.'] {
        if names.len() > 0 {
            names.drop_last()
        } else {
            names
        }
    } else {
        names.push(piece)
    }
}

/// Scans `s` component by component, `piece` being the component read so far.
pub open spec fn norm_scan(s: Seq<char>, names: Seq<Seq<char>>, piece: Seq<char>) -> Seq<
    Seq<char>,
>
    decreases s.len(),
{
    if s.len() == 0 {
        norm_step(names, piece)
    } else if s[0] == '/' {
        norm_scan(s.drop_first(), norm_step(names, piece), Seq::empty())
    } else {
        norm_scan(s.drop_first(), names, piece.push(s[0]))
    }
}

/// A path with its `.` components removed and each `..` applied to the name
/// before it; a `..` at the start or just below the root is dropped.
pub open spec fn normalize_path(s: Seq<char>) -> Seq<char> {
    let names = norm_scan(s, Seq::empty(), Seq::empty());
    if is_absolute(s) {
        seq!['/'] + join_names(names)
    } else {
        join_names(names)
    }
}

/// `base.join(p)` on path text.
pub fn join_path(base: &str, p: &str) -> (r: String)
    ensures
        r@ == path_join(base@, p@),
{
    let pv = chars_of(p);
    if pv.len() > 0 && pv[0] == '/' {
        return string_of(&pv);
    }
    let bv = chars_of(base);
    let mut r = string_of(&bv);
    if bv.len() > 0 && bv[bv.len() - 1] != '/' {
        push_char(&mut r, '/');
    }
    push_chars(&mut r, &pv);
    r
}

/// Joins several components in turn onto `base`.
pub open spec fn path_join_all(base: Seq<char>, ps: Seq<Seq<char>>) -> Seq<char>
    decreases ps.len(),
{
    if ps.len() == 0 {
        base
    } else {
        path_join(path_join_all(base, ps.drop_last()), ps.last())
    }
}

/// The character views of a list of names.
pub open spec fn names_view(ns: Seq<Vec<char>>) -> Seq<Seq<char>> {
    ns.map_values(|v: Vec<char>| v@)
}

fn piece_is(piece: &Vec<char>, dots: usize) -> (b: bool)
    requires
        dots == 1 || dots == 2,
    ensures
        dots == 1 ==> (b == (piece@ == seq!['.'])),
        dots == 2 ==> (b == (piece@ == seq!['.', '.'])),
{
    if piece.len() != dots {
        return false;
    }
    if dots == 1 {
        let r = piece[0] == '.';
        if r {
            assert(piece@ =~= seq!['.']);
        }
        r
    } else {
        let r = piece[0] == '.' && piece[1] == '.';
        if r {
            assert(piece@ =~= seq!['.', '.']);
        }
        r
    }
}

fn apply_piece(names: &mut Vec<Vec<char>>, piece: Vec<char>)
    ensures
        names_view(final(names)@) == norm_step(names_view(old(names)@), piece@),
{
    if piece.len() == 0 || piece_is(&piece, 1) {
        return;
    }
    if piece_is(&piece, 2) {
        if names.len() > 0 {
            names.pop();
            assert(names_view(names@) =~= names_view(old(names)@).drop_last());
        }
        return;
    }
    let ghost pv = piece@;
    names.push(piece);
    assert(names_view(names@) =~= names_view(old(names)@).push(pv));
}

fn push_joined(out: &mut String, names: &Vec<Vec<char>>)
    ensures
        final(out)@ == old(out)@ + join_names(names_view(names@)),
{
    let mut i: usize = 0;
    while i < names.len()
        invariant
            0 <= i <= names.len(),
            out@ == old(out)@ + join_names(names_view(names@).take(i as int)),
        decreases names.len() - i,
    {
        let ghost prev = names_view(names@).take(i as int);
        if i > 0 {
            push_char(out, '/');
        }
        push_chars(out, names[i].as_slice());
        i = i + 1;
        proof {
            let cur = names_view(names@).take(i as int);
            assert(cur.drop_last() =~= prev);
            assert(cur.last() == names[i - 1]@);
            if i == 1 {
                assert(prev.len() == 0);
            }
            assert(out@ =~= old(out)@ + join_names(cur));
        }
    }
    assert(names_view(names@).take(names.len() as int) =~= names_view(names@));
}

/// Lexically normalizes a path: `.` components are removed, `..` removes the
/// name before it.
pub fn normalize_path_text(path: &str) -> (r: String)
    ensures
        r@ == normalize_path(path@),
{
    let v = chars_of(path);
    let mut names: Vec<Vec<char>> = Vec::new();
    let mut piece: Vec<char> = Vec::new();
    let mut i: usize = 0;
    assert(v@.skip(0) == v@);
    assert(names_view(names@) =~= Seq::<Seq<char>>::empty());
    assert(piece@ =~= Seq::<char>::empty());
    while i < v.len()
        invariant
            v@ == path@,
            0 <= i <= v.len(),
            norm_scan(v@, Seq::empty(), Seq::empty()) == norm_scan(
                v@.skip(i as int),
                names_view(names@),
                piece@,
            ),
        decreases v.len() - i,
    {
        assert(v@.skip(i as int).drop_first() == v@.skip(i + 1));
        if v[i] == '/' {
            let done = piece;
            piece = Vec::new();
            apply_piece(&mut names, done);
        } else {
            piece.push(v[i]);
        }
        i = i + 1;
    }
    apply_piece(&mut names, piece);
    let mut out = String::new();
    if v.len() > 0 && v[0] == '/' {
        push_char(&mut out, '/');
    }
    push_joined(&mut out, &names);
    out
}


// ---------------------------------------------------------------------------
// Components, as `Path::components` yields them
// ---------------------------------------------------------------------------

/// The effect of one piece between separators on the list of names: empty
/// and `.` pieces vanish, any other piece (`..` too) is appended.
pub open spec fn name_step(names: Seq<Seq<char>>, piece: Seq<char>) -> Seq<Seq<char>> {
    if piece.len() == 0 || piece == seq!['.'] {
        names
    } else {
        names.push(piece)
    }
}

/// Scans `s` piece by piece, `piece` being the piece read so far.
pub open spec fn name_scan(s: Seq<char>, names: Seq<Seq<char>>, piece: Seq<char>) -> Seq<
    Seq<char>,
>
    decreases s.len(),
{
    if s.len() == 0 {
        name_step(names, piece)
    } else if s[0] == '/' {
        name_scan(s.drop_first(), name_step(names, piece), Seq::empty())
    } else {
        name_scan(s.drop_first(), names, piece.push(s[0]))
    }
}

/// The named components of a path: its pieces between separators, without
/// empty and `.` pieces.
pub open spec fn path_names(s: Seq<char>) -> Seq<Seq<char>> {
    name_scan(s, Seq::empty(), Seq::empty())
}

/// A relative path that starts with a `.` component.
pub open spec fn starts_at_cur_dir(s: Seq<char>) -> bool {
    s.len() > 0 && s[0] == '.' && (s.len() == 1 || s[1] == '/')
}

/// `Path::components`: the root (written `/`) of an absolute path, or the
/// leading `.` of a relative one, then the named components.
pub open spec fn path_components(s: Seq<char>) -> Seq<Seq<char>> {
    if is_absolute(s) {
        seq![seq!['/']] + path_names(s)
    } else if starts_at_cur_dir(s) {
        seq![seq!['.']] + path_names(s)
    } else {
        path_names(s)
    }
}

/// `Path::starts_with`: the components of `base` begin the components of `p`.
pub open spec fn path_starts_with_spec(p: Seq<char>, base: Seq<char>) -> bool {
    path_components(base).is_prefix_of(path_components(p))
}

/// `Path::file_name`: the last component when it is a name other than `..`.
pub open spec fn path_file_name_spec(p: Seq<char>) -> Option<Seq<char>> {
    let ns = path_names(p);
    if ns.len() > 0 && ns.last() != seq!['.', '.'] {
        Some(ns.last())
    } else {
        None
    }
}

fn push_name(names: &mut Vec<Vec<char>>, piece: Vec<char>)
    ensures
        names_view(final(names)@) == name_step(names_view(old(names)@), piece@),
{
    if piece.len() == 0 || piece_is(&piece, 1) {
        return;
    }
    let ghost pv = piece@;
    names.push(piece);
    assert(names_view(names@) =~= names_view(old(names)@).push(pv));
}

/// The named components of a path.
fn names_of(v: &Vec<char>) -> (names: Vec<Vec<char>>)
    ensures
        names_view(names@) == path_names(v@),
{
    let mut names: Vec<Vec<char>> = Vec::new();
    let mut piece: Vec<char> = Vec::new();
    let mut i: usize = 0;
    assert(v@.skip(0) == v@);
    assert(names_view(names@) =~= Seq::<Seq<char>>::empty());
    assert(piece@ =~= Seq::<char>::empty());
    while i < v.len()
        invariant
            0 <= i <= v.len(),
            path_names(v@) == name_scan(v@.skip(i as int), names_view(names@), piece@),
        decreases v.len() - i,
    {
        assert(v@.skip(i as int).drop_first() == v@.skip(i + 1));
        if v[i] == '/' {
            let done = piece;
            piece = Vec::new();
            push_name(&mut names, done);
        } else {
            piece.push(v[i]);
        }
        i = i + 1;
    }
    push_name(&mut names, piece);
    names
}

/// The components of a path, the root written `/`.
fn components_of(p: &str) -> (c: Vec<Vec<char>>)
    ensures
        names_view(c@) == path_components(p@),
{
    let v = chars_of(p);
    let names = names_of(&v);
    let mut c: Vec<Vec<char>> = Vec::new();
    if v.len() > 0 && v[0] == '/' {
        let mut m: Vec<char> = Vec::new();
        m.push('/');
        c.push(m);
        assert(names_view(c@) =~= seq![seq!['/']]);
    } else if v.len() > 0 && v[0] == '.' && (v.len() == 1 || v[1] == '/') {
        let mut m: Vec<char> = Vec::new();
        m.push('.');
        c.push(m);
        assert(names_view(c@) =~= seq![seq!['.']]);
    } else {
        assert(names_view(c@) =~= Seq::<Seq<char>>::empty());
    }
    let ghost head = names_view(c@);
    assert(head + path_names(p@) == path_components(p@));
    let mut i: usize = 0;
    while i < names.len()
        invariant
            0 <= i <= names.len(),
            names_view(names@) == path_names(p@),
            head + path_names(p@) == path_components(p@),
            names_view(c@) == head + names_view(names@).take(i as int),
        decreases names.len() - i,
    {
        let ghost before = c@;
        let n = sub_name(&names, i);
        c.push(n);
        proof {
            assert(c@ == before.push(n));
            assert(names_view(c@) =~= names_view(before).push(n@));
            assert(names_view(names@)[i as int] == n@);
            assert(names_view(names@).take(i + 1) =~= names_view(names@).take(i as int).push(n@));
        }
        i = i + 1;
        assert(names_view(c@) =~= head + names_view(names@).take(i as int));
    }
    assert(names_view(names@).take(names.len() as int) =~= names_view(names@));
    c
}

fn sub_name(names: &Vec<Vec<char>>, i: usize) -> (n: Vec<char>)
    requires
        i < names.len(),
    ensures
        n@ == names@[i as int]@,
{
    let src = &names[i];
    let mut n: Vec<char> = Vec::new();
    let mut j: usize = 0;
    while j < src.len()
        invariant
            0 <= j <= src.len(),
            n@ == src@.take(j as int),
        decreases src.len() - j,
    {
        n.push(src[j]);
        j = j + 1;
        assert(n@ =~= src@.take(j as int));
    }
    assert(src@.take(src.len() as int) =~= src@);
    n
}

/// `Path::starts_with` on path text: whether `base`'s components begin
/// `path`'s components.
pub fn path_starts_with(path: &str, base: &str) -> (r: bool)
    ensures
        r == path_starts_with_spec(path@, base@),
{
    let pc = components_of(path);
    let bc = components_of(base);
    if bc.len() > pc.len() {
        return false;
    }
    let mut i: usize = 0;
    while i < bc.len()
        invariant
            bc.len() <= pc.len(),
            names_view(pc@) == path_components(path@),
            names_view(bc@) == path_components(base@),
            0 <= i <= bc.len(),
            forall|j: int| 0 <= j < i ==> #[trigger] names_view(bc@)[j] == names_view(pc@)[j],
        decreases bc.len() - i,
    {
        if !crate::text::chars_eq(bc[i].as_slice(), pc[i].as_slice()) {
            proof {
                assert(names_view(bc@)[i as int] != names_view(pc@)[i as int]);
                if names_view(bc@).is_prefix_of(names_view(pc@)) {
                    assert(names_view(bc@)[i as int] == names_view(pc@).subrange(
                        0,
                        bc.len() as int,
                    )[i as int]);
                }
            }
            return false;
        }
        i = i + 1;
    }
    assert(names_view(bc@) =~= names_view(pc@).subrange(0, bc.len() as int));
    true
}

/// `Path::file_name` on path text.
pub fn path_file_name(path: &str) -> (r: Option<String>)
    ensures
        crate::text::opt_view(r) == path_file_name_spec(path@),
{
    let v = chars_of(path);
    let names = names_of(&v);
    if names.len() == 0 {
        return None;
    }
    let last = &names[names.len() - 1];
    if piece_is(last, 2) {
        return None;
    }
    Some(string_of(last.as_slice()))
}


/// Scanning text without separators only extends the current piece.
proof fn lemma_scan_piece(t: Seq<char>, names: Seq<Seq<char>>, piece: Seq<char>)
    requires
        forall|i: int| 0 <= i < t.len() ==> t[i] != '/',
    ensures
        name_scan(t, names, piece) == name_step(names, piece + t),
    decreases t.len(),
{
    if t.len() == 0 {
        assert(piece + t == piece);
    } else {
        lemma_scan_piece(t.drop_first(), names, piece.push(t[0]));
        assert(piece.push(t[0]) + t.drop_first() == piece + t);
    }
}

/// After a separator, a final name without separators is the last name.
proof fn lemma_scan_last_name(s: Seq<char>, t: Seq<char>, names: Seq<Seq<char>>, piece: Seq<char>)
    requires
        t.len() > 0,
        t != seq!['.'],
        forall|i: int| 0 <= i < t.len() ==> t[i] != '/',
    ensures
        name_scan(s + seq!['/'] + t, names, piece).len() > 0,
        name_scan(s + seq!['/'] + t, names, piece).last() == t,
    decreases s.len(),
{
    let u = s + seq!['/'] + t;
    if s.len() == 0 {
        assert(u.drop_first() == t);
        lemma_scan_piece(t, name_step(names, piece), Seq::empty());
        assert(Seq::<char>::empty() + t == t);
    } else {
        assert(u.drop_first() == s.drop_first() + seq!['/'] + t);
        if s[0] == '/' {
            lemma_scan_last_name(s.drop_first(), t, name_step(names, piece), Seq::empty());
        } else {
            lemma_scan_last_name(s.drop_first(), t, names, piece.push(s[0]));
        }
    }
}

/// The file name of a name joined onto a directory is that name, when the
/// name is a single component other than `.` and `..`.
pub proof fn lemma_file_name_of_join(dir: Seq<char>, name: Seq<char>)
    requires
        name.len() > 0,
        name != seq!['.'],
        name != seq!['.', '.'],
        forall|i: int| 0 <= i < name.len() ==> name[i] != '/',
    ensures
        path_file_name_spec(path_join(dir, name)) == Some(name),
{
    let p = path_join(dir, name);
    if dir.len() > 0 && dir.last() != '/' {
        assert(p == dir + seq!['/'] + name);
        lemma_scan_last_name(dir, name, Seq::empty(), Seq::empty());
    } else if dir.len() > 0 {
        assert(p == dir.drop_last() + seq!['/'] + name);
        lemma_scan_last_name(dir.drop_last(), name, Seq::empty(), Seq::empty());
    } else {
        assert(p == name);
        lemma_scan_piece(name, Seq::empty(), Seq::empty());
        assert(Seq::<char>::empty() + name == name);
    }
}


// ---------------------------------------------------------------------------
// Normalized paths keep the components of their base
// ---------------------------------------------------------------------------

/// Names as normalization leaves them: non-empty, neither `.` nor `..`, and
/// without separators.
pub open spec fn clean_names(ns: Seq<Seq<char>>) -> bool {
    forall|i: int|
        0 <= i < ns.len() ==> {
            &&& (#[trigger] ns[i]).len() > 0
            &&& ns[i] != seq!['.']
            &&& ns[i] != seq!['.', '.']
            &&& forall|j: int| 0 <= j < ns[i].len() ==> ns[i][j] != '/'
        }
}

/// Scanning across a separator: what follows starts from the names of what
/// came before, with an empty piece.
proof fn lemma_norm_scan_split(s: Seq<char>, t: Seq<char>, names: Seq<Seq<char>>, piece: Seq<char>)
    ensures
        norm_scan(s + seq!['/'] + t, names, piece) == norm_scan(t, norm_scan(s, names, piece), Seq::empty()),
    decreases s.len(),
{
    let u = s + seq!['/'] + t;
    if s.len() == 0 {
        assert(u.drop_first() == t);
    } else {
        assert(u.drop_first() == s.drop_first() + seq!['/'] + t);
        if s[0] == '/' {
            lemma_norm_scan_split(s.drop_first(), t, norm_step(names, piece), Seq::empty());
        } else {
            lemma_norm_scan_split(s.drop_first(), t, names, piece.push(s[0]));
        }
    }
}

/// The same for the names of `Path::components`.
proof fn lemma_name_scan_split(s: Seq<char>, t: Seq<char>, names: Seq<Seq<char>>, piece: Seq<char>)
    ensures
        name_scan(s + seq!['/'] + t, names, piece) == name_scan(t, name_scan(s, names, piece), Seq::empty()),
    decreases s.len(),
{
    let u = s + seq!['/'] + t;
    if s.len() == 0 {
        assert(u.drop_first() == t);
    } else {
        assert(u.drop_first() == s.drop_first() + seq!['/'] + t);
        if s[0] == '/' {
            lemma_name_scan_split(s.drop_first(), t, name_step(names, piece), Seq::empty());
        } else {
            lemma_name_scan_split(s.drop_first(), t, names, piece.push(s[0]));
        }
    }
}

/// The names already collected stay in front.
proof fn lemma_name_scan_acc(t: Seq<char>, names: Seq<Seq<char>>, piece: Seq<char>)
    ensures
        name_scan(t, names, piece) == names + name_scan(t, Seq::empty(), piece),
    decreases t.len(),
{
    if t.len() == 0 {
        assert(names + Seq::<Seq<char>>::empty() == names);
        assert(names + seq![piece] == names.push(piece));
    } else if t[0] == '/' {
        let e = Seq::<Seq<char>>::empty();
        lemma_name_scan_acc(t.drop_first(), name_step(names, piece), Seq::empty());
        lemma_name_scan_acc(t.drop_first(), name_step(e, piece), Seq::empty());
        if !(piece.len() == 0 || piece == seq!['.']) {
            assert(name_step(names, piece) == names + name_step(e, piece));
        } else {
            assert(names + e == names);
        }
        assert(name_step(names, piece) == names + name_step(e, piece));
    } else {
        lemma_name_scan_acc(t.drop_first(), names, piece.push(t[0]));
    }
}

/// Without `..`, normalization only appends the names it reads.
proof fn lemma_norm_scan_appends(t: Seq<char>, names: Seq<Seq<char>>, piece: Seq<char>)
    requires
        !name_scan(t, Seq::empty(), piece).contains(seq!['.', '.']),
    ensures
        norm_scan(t, names, piece) == names + name_scan(t, Seq::empty(), piece),
    decreases t.len(),
{
    let e = Seq::<Seq<char>>::empty();
    if t.len() == 0 {
        if piece == seq!['.', '.'] {
            assert(name_step(e, piece)[0] == piece);
        }
        assert(names + e == names);
        assert(names + seq![piece] == names.push(piece));
    } else if t[0] == '/' {
        lemma_name_scan_acc(t.drop_first(), name_step(e, piece), Seq::empty());
        let rest = name_scan(t.drop_first(), e, Seq::empty());
        assert(name_scan(t, e, piece) == name_step(e, piece) + rest);
        if piece == seq!['.', '.'] {
            assert((name_step(e, piece) + rest)[0] == piece);
        }
        assert forall|x: Seq<char>| rest.contains(x) implies x != seq!['.', '.'] by {
            let k = choose|k: int| 0 <= k < rest.len() && rest[k] == x;
            assert((name_step(e, piece) + rest)[name_step(e, piece).len() + k] == x);
        }
        lemma_norm_scan_appends(t.drop_first(), norm_step(names, piece), Seq::empty());
        if piece.len() == 0 || piece == seq!['.'] {
            assert(e + rest == rest);
        } else {
            assert(norm_step(names, piece) == names.push(piece));
        }
    } else {
        lemma_norm_scan_appends(t.drop_first(), names, piece.push(t[0]));
    }
}

/// Normalization yields clean names.
proof fn lemma_norm_scan_clean(s: Seq<char>, names: Seq<Seq<char>>, piece: Seq<char>)
    requires
        clean_names(names),
        forall|j: int| 0 <= j < piece.len() ==> piece[j] != '/',
    ensures
        clean_names(norm_scan(s, names, piece)),
    decreases s.len(),
{
    if s.len() == 0 {
    } else if s[0] == '/' {
        lemma_norm_scan_clean(s.drop_first(), norm_step(names, piece), Seq::empty());
    } else {
        let q = piece.push(s[0]);
        assert forall|j: int| 0 <= j < q.len() implies q[j] != '/' by {
            if j < piece.len() {
                assert(q[j] == piece[j]);
            }
        }
        lemma_norm_scan_clean(s.drop_first(), names, q);
    }
}

/// The first name begins the joined text.
proof fn lemma_join_names_head(ns: Seq<Seq<char>>)
    requires
        ns.len() > 0,
    ensures
        ns[0].is_prefix_of(join_names(ns)),
    decreases ns.len(),
{
    if ns.len() > 1 {
        let d = ns.drop_last();
        lemma_join_names_head(d);
        assert(d[0] == ns[0]);
        let j = join_names(d) + seq!['/'] + ns.last();
        assert(join_names(ns) == j);
        assert(j.subrange(0, ns[0].len() as int) =~= join_names(d).subrange(0, ns[0].len() as int));
    } else {
        assert(join_names(ns) == ns[0]);
        assert(ns[0].subrange(0, ns[0].len() as int) =~= ns[0]);
    }
}

/// Clean names are read back from their joined text.
proof fn lemma_names_of_join(ns: Seq<Seq<char>>)
    requires
        clean_names(ns),
    ensures
        path_names(join_names(ns)) == ns,
    decreases ns.len(),
{
    let e = Seq::<Seq<char>>::empty();
    if ns.len() == 0 {
        assert(path_names(Seq::empty()) == name_step(e, Seq::empty()));
    } else if ns.len() == 1 {
        lemma_scan_piece(ns[0], e, Seq::empty());
        assert(Seq::<char>::empty() + ns[0] == ns[0]);
        assert(e.push(ns[0]) == ns);
    } else {
        let d = ns.drop_last();
        assert(clean_names(d)) by {
            assert forall|i: int| 0 <= i < d.len() implies #[trigger] d[i] == ns[i] by {}
        }
        lemma_names_of_join(d);
        lemma_name_scan_split(join_names(d), ns.last(), e, Seq::empty());
        lemma_scan_piece(ns.last(), d, Seq::empty());
        assert(Seq::<char>::empty() + ns.last() == ns.last());
        assert(d.push(ns.last()) == ns);
    }
}

/// The components of a normalized path: the root when absolute, then the
/// normalized names.
proof fn lemma_normalized_components(s: Seq<char>)
    ensures
        path_components(normalize_path(s)) == if is_absolute(s) {
            seq![seq!['/']] + norm_scan(s, Seq::empty(), Seq::empty())
        } else {
            norm_scan(s, Seq::empty(), Seq::empty())
        },
{
    let ns = norm_scan(s, Seq::empty(), Seq::empty());
    lemma_norm_scan_clean(s, Seq::empty(), Seq::empty());
    lemma_names_of_join(ns);
    let j = join_names(ns);
    if is_absolute(s) {
        let n = normalize_path(s);
        assert(n == seq!['/'] + j);
        lemma_name_scan_split(Seq::empty(), j, Seq::empty(), Seq::empty());
        assert(Seq::<char>::empty() + seq!['/'] + j == n);
        assert(name_scan(Seq::empty(), Seq::empty(), Seq::empty()) == Seq::<Seq<char>>::empty());
    } else if ns.len() > 0 {
        lemma_join_names_head(ns);
        assert(j[0] == ns[0][0]);
        if ns[0].len() > 1 {
            assert(j[1] == ns[0][1]);
        } else {
            assert(ns[0] != seq!['.']);
            if ns[0][0] == '.' {
                assert(ns[0] =~= seq!['.']);
            }
        }
    }
}

/// A relative path without `..` joined onto a base and normalized keeps the
/// components of the normalized base in front.
pub proof fn lemma_normalized_join_keeps_base(base: Seq<char>, p: Seq<char>)
    requires
        !is_absolute(p),
        !path_names(p).contains(seq!['.', '.']),
    ensures
        path_starts_with_spec(normalize_path(path_join(base, p)), normalize_path(base)),
{
    let e = Seq::<Seq<char>>::empty();
    let joined = path_join(base, p);
    if base.len() == 0 {
        assert(normalize_path(base) == join_names(norm_scan(base, e, Seq::empty())));
        assert(norm_scan(base, e, Seq::empty()) == e);
        assert(path_components(Seq::empty()) == e);
        assert(e.is_prefix_of(path_components(normalize_path(joined))));
    } else {
        let b = if base.last() != '/' { base } else { base.drop_last() };
        assert(joined == b + seq!['/'] + p);
        lemma_norm_scan_split(b, p, e, Seq::empty());
        let nb = norm_scan(b, e, Seq::empty());
        lemma_norm_scan_appends(p, nb, Seq::empty());
        assert(norm_scan(joined, e, Seq::empty()) == nb + path_names(p));
        if base.last() == '/' {
            assert(base == b + seq!['/'] + Seq::<char>::empty());
            lemma_norm_scan_split(b, Seq::empty(), e, Seq::empty());
            assert(norm_scan(Seq::<char>::empty(), nb, Seq::empty()) == nb);
        }
        assert(norm_scan(base, e, Seq::empty()) == nb);
        assert(is_absolute(joined) == is_absolute(base)) by {
            assert(joined[0] == base[0]);
        }
        lemma_normalized_components(base);
        lemma_normalized_components(joined);
        let cb = path_components(normalize_path(base));
        let cj = path_components(normalize_path(joined));
        assert(cb.is_prefix_of(cj)) by {
            if is_absolute(base) {
                assert(cj == seq![seq!['/']] + (nb + path_names(p)));
                assert(cj.subrange(0, cb.len() as int) =~= cb);
            } else {
                assert(cj.subrange(0, cb.len() as int) =~= cb);
            }
        }
    }
}


/// Path containment is an order: every path lies within itself, and a path
/// within `b`, where `b` lies within `c`, lies within `c`.
pub proof fn law_path_containment_order(a: Seq<char>, b: Seq<char>, c: Seq<char>)
    ensures
        path_starts_with_spec(a, a),
        path_starts_with_spec(a, b) && path_starts_with_spec(b, c) ==> path_starts_with_spec(a, c),
{
    let ca = path_components(a);
    let cb = path_components(b);
    let cc = path_components(c);
    assert(ca.subrange(0, ca.len() as int) =~= ca);
    if cb.is_prefix_of(ca) && cc.is_prefix_of(cb) {
        assert(ca.subrange(0, cc.len() as int) =~= cb.subrange(0, cc.len() as int));
    }
}

} // verus!
