//! Unix paths as text: how `std::path` splits a path into components and
//! joins one onto another, and the lexical rules built on that (clean-up
//! without touching the disk, `.app` bundle detection, prefix tests).

use vstd::prelude::*;

use crate::cli::{split_chars, views};
use crate::text::{
    chars_of, first_index, lemma_first_index, lemma_first_index_is, slice_vec, string_of_chars, vec_eq,
    vec_eq_str,
};
use crate::trigger_args::{lemma_split_concat, lemma_split_one, split_all};

verus! {

/// One component of a path, as `Path::components` yields it.
pub enum Part {
    /// The leading `/`.
    Root,
    /// A leading `.`.
    Cur,
    /// `..`.
    Up,
    /// Any other name.
    Name(Seq<char>),
}

/// A component, in executable form.
#[derive(Debug, Clone, PartialEq, Eq)]
pub enum PathPart {
    Root,
    Cur,
    Up,
    Name(Vec<char>),
}

impl View for PathPart {
    type V = Part;

    open spec fn view(&self) -> Part {
        match self {
            PathPart::Root => Part::Root,
            PathPart::Cur => Part::Cur,
            PathPart::Up => Part::Up,
            PathPart::Name(v) => Part::Name(v@),
        }
    }
}

/// The views of a list of components.
pub open spec fn part_views(ps: Seq<PathPart>) -> Seq<Part> {
    ps.map_values(|p: PathPart| p@)
}

/// The component one `/`-separated piece stands for, if any: empty pieces
/// and `.` vanish.
pub open spec fn piece_part(s: Seq<char>) -> Option<Part> {
    if s.len() == 0 || s == seq!['.'] {
        None
    } else if s == seq!['.', '.'] {
        Some(Part::Up)
    } else {
        Some(Part::Name(s))
    }
}

/// The components the pieces stand for, in order.
pub open spec fn named(ps: Seq<Seq<char>>) -> Seq<Part>
    decreases ps.len(),
{
    if ps.len() == 0 {
        Seq::empty()
    } else {
        match piece_part(ps.last()) {
            Some(p) => named(ps.drop_last()).push(p),
            None => named(ps.drop_last()),
        }
    }
}

/// `Path::components` on Unix: a leading `/` is the root; repeated
/// separators, a trailing separator and `.` pieces are ignored, except that
/// a path beginning with `.` keeps it as its first component.
pub open spec fn components(p: Seq<char>) -> Seq<Part> {
    let ps = split_all(p, '/');
    if p.len() > 0 && p[0] == '/' {
        seq![Part::Root] + named(ps.drop_first())
    } else if ps[0] == seq!['.'] {
        seq![Part::Cur] + named(ps.drop_first())
    } else {
        named(ps)
    }
}

/// The component a piece stands for, if any.
fn part_of_piece(s: &Vec<char>) -> (r: Option<PathPart>)
    ensures
        match (r, piece_part(s@)) {
            (Some(a), Some(b)) => a@ == b,
            (None, None) => true,
            _ => false,
        },
{
    if s.len() == 0 {
        None
    } else if s.len() == 1 && s[0] == '.' {
        assert(s@ =~= seq!['.']);
        None
    } else if s.len() == 2 && s[0] == '.' && s[1] == '.' {
        assert(s@ =~= seq!['.', '.']);
        Some(PathPart::Up)
    } else {
        assert(s@ != seq!['.']);
        assert(s@ != seq!['.', '.']);
        let v = slice_vec(s, 0, s.len());
        assert(v@ =~= s@);
        Some(PathPart::Name(v))
    }
}

/// The components of pieces `from..` of `ps`, appended to `out`.
fn push_named(out: &mut Vec<PathPart>, ps: &Vec<Vec<char>>, from: usize)
    requires
        from <= ps@.len(),
    ensures
        part_views(final(out)@) == part_views(old(out)@) + named(
            views(ps@).subrange(from as int, ps@.len() as int),
        ),
{
    let ghost start = part_views(out@);
    let ghost all = views(ps@).subrange(from as int, ps@.len() as int);
    let mut i = from;
    assert(all.subrange(0, 0) =~= Seq::<Seq<char>>::empty());
    assert(part_views(out@) =~= start + named(all.subrange(0, 0)));
    while i < ps.len()
        invariant
            from <= i <= ps@.len(),
            all == views(ps@).subrange(from as int, ps@.len() as int),
            part_views(out@) == start + named(all.subrange(0, i - from)),
        decreases ps@.len() - i,
    {
        let got = part_of_piece(&ps[i]);
        let ghost before = part_views(out@);
        proof {
            let upto = all.subrange(0, i - from + 1);
            assert(upto.drop_last() =~= all.subrange(0, i - from));
            assert(upto.last() == ps@[i as int]@);
        }
        match got {
            Some(p) => {
                out.push(p);
                assert(part_views(out@) =~= before.push(p@));
            },
            None => {},
        }
        i = i + 1;
    }
    assert(all.subrange(0, ps@.len() - from) =~= all);
}

/// [`components`] of `p`.
pub fn path_parts(p: &Vec<char>) -> (r: Vec<PathPart>)
    ensures
        part_views(r@) == components(p@),
{
    let pieces = split_chars(p, '/');
    let ghost ps = views(pieces@);
    assert(ps.len() >= 1) by {
        lemma_first_index(p@, '/');
    }
    assert(ps[0] == pieces@[0]@);
    let mut out: Vec<PathPart> = Vec::new();
    assert(part_views(out@) =~= Seq::<Part>::empty());
    if p.len() > 0 && p[0] == '/' {
        out.push(PathPart::Root);
        assert(part_views(out@) =~= seq![Part::Root]);
        push_named(&mut out, &pieces, 1);
        assert(ps.subrange(1, ps.len() as int) =~= ps.drop_first());
    } else if pieces[0].len() == 1 && pieces[0][0] == '.' {
        assert(pieces@[0]@ =~= seq!['.']);
        out.push(PathPart::Cur);
        assert(part_views(out@) =~= seq![Part::Cur]);
        push_named(&mut out, &pieces, 1);
        assert(ps.subrange(1, ps.len() as int) =~= ps.drop_first());
    } else {
        assert(pieces@[0]@ != seq!['.']) by {
            if pieces@[0]@ == seq!['.'] {
                assert(pieces@[0]@.len() == 1);
            }
        }
        push_named(&mut out, &pieces, 0);
        assert(ps.subrange(0, ps.len() as int) =~= ps);
        assert(Seq::<Part>::empty() + named(ps) =~= named(ps));
    }
    out
}

// ---------------------------------------------------------------------------
// Joining and rendering
// ---------------------------------------------------------------------------

/// `PathBuf::push` on Unix: an absolute `part` replaces `base`; otherwise
/// it is appended, with a `/` in between unless `base` is empty or already
/// ends in one.
pub open spec fn joined(base: Seq<char>, part: Seq<char>) -> Seq<char> {
    if part.len() > 0 && part[0] == '/' {
        part
    } else if base.len() > 0 && base.last() != '/' {
        base + seq!['/'] + part
    } else {
        base + part
    }
}

/// The text of one component.
pub open spec fn part_text(p: Part) -> Seq<char> {
    match p {
        Part::Root => seq!['/'],
        Part::Cur => seq!['.'],
        Part::Up => seq!['.', '.'],
        Part::Name(s) => s,
    }
}

/// The path the components make when pushed one by one onto an empty one.
pub open spec fn text_of(ps: Seq<Part>) -> Seq<char>
    decreases ps.len(),
{
    if ps.len() == 0 {
        Seq::empty()
    } else {
        joined(text_of(ps.drop_last()), part_text(ps.last()))
    }
}

/// [`joined`] in place.
pub fn push_path(buf: &mut Vec<char>, part: &Vec<char>)
    ensures
        final(buf)@ == joined(old(buf)@, part@),
{
    if part.len() > 0 && part[0] == '/' {
        *buf = slice_vec(part, 0, part.len());
        assert(buf@ =~= part@);
    } else {
        let ghost b0 = buf@;
        if buf.len() > 0 && buf[buf.len() - 1] != '/' {
            buf.push('/');
        }
        let ghost b1 = buf@;
        let mut i: usize = 0;
        while i < part.len()
            invariant
                i <= part@.len(),
                buf@ == b1 + part@.subrange(0, i as int),
            decreases part@.len() - i,
        {
            buf.push(part[i]);
            i = i + 1;
            assert(buf@ =~= b1 + part@.subrange(0, i as int));
        }
        assert(part@.subrange(0, part@.len() as int) =~= part@);
        proof {
            if b0.len() > 0 && b0.last() != '/' {
                assert(b1 =~= b0 + seq!['/']);
            }
        }
    }
}

/// The text of one component, as a new vector.
fn part_chars(p: &PathPart) -> (r: Vec<char>)
    ensures
        r@ == part_text(p@),
{
    match p {
        PathPart::Root => {
            let r = vec!['/'];
            assert(r@ =~= seq!['/']);
            r
        },
        PathPart::Cur => {
            let r = vec!['.'];
            assert(r@ =~= seq!['.']);
            r
        },
        PathPart::Up => {
            let r = vec!['.', '.'];
            assert(r@ =~= seq!['.', '.']);
            r
        },
        PathPart::Name(v) => slice_vec(v, 0, v.len()),
    }
}

/// [`text_of`] the components.
pub fn render(ps: &Vec<PathPart>) -> (r: Vec<char>)
    ensures
        r@ == text_of(part_views(ps@)),
{
    let mut buf: Vec<char> = Vec::new();
    let mut i: usize = 0;
    assert(part_views(ps@).take(0) =~= Seq::<Part>::empty());
    while i < ps.len()
        invariant
            i <= ps@.len(),
            buf@ == text_of(part_views(ps@).take(i as int)),
        decreases ps@.len() - i,
    {
        let t = part_chars(&ps[i]);
        push_path(&mut buf, &t);
        proof {
            let upto = part_views(ps@).take(i + 1);
            assert(upto.drop_last() =~= part_views(ps@).take(i as int));
            assert(upto.last() == ps@[i as int]@);
        }
        i = i + 1;
    }
    assert(part_views(ps@).take(ps@.len() as int) =~= part_views(ps@));
    buf
}

// ---------------------------------------------------------------------------
// Lexical clean-up
// ---------------------------------------------------------------------------

/// One step of the clean-up: `.` vanishes; `..` cancels a preceding name,
/// is dropped right after the root (`/..` is `/`), and is kept when nothing
/// it could cancel precedes it (`../../x` stays as it is); everything else
/// is kept.
pub open spec fn norm_step(out: Seq<Part>, c: Part) -> Seq<Part> {
    match c {
        Part::Cur => out,
        Part::Up => if out.len() > 0 && out.last() is Name {
            out.drop_last()
        } else if out.len() == 0 || out.last() is Up {
            out.push(Part::Up)
        } else {
            out
        },
        _ => out.push(c),
    }
}

/// The components left after cleaning up `cs` from left to right.
pub open spec fn normalize(cs: Seq<Part>) -> Seq<Part>
    decreases cs.len(),
{
    if cs.len() == 0 {
        Seq::empty()
    } else {
        norm_step(normalize(cs.drop_last()), cs.last())
    }
}

/// A path's text, with `.` standing for the empty path.
pub open spec fn shown(t: Seq<char>) -> Seq<char> {
    if t.len() == 0 {
        seq!['.']
    } else {
        t
    }
}

/// `p` with `.` components dropped and each `..` resolved against the
/// component before it, purely on the text: symlinks are not followed and
/// the disk is not read.
pub open spec fn lexically_normal(p: Seq<char>) -> Seq<char> {
    shown(text_of(normalize(components(p))))
}

/// No `.` component, no `..` right after a name, and every `..` preceded
/// only by `..`s.
pub open spec fn clean(ps: Seq<Part>) -> bool {
    &&& forall|i: int| 0 <= i < ps.len() ==> !(#[trigger] ps[i] is Cur)
    &&& forall|i: int| 0 <= i < ps.len() - 1 ==> !(#[trigger] ps[i] is Name && ps[i + 1] is Up)
    &&& forall|i: int, j: int| 0 <= j < i < ps.len() && #[trigger] ps[i] is Up ==> #[trigger] ps[j] is Up
}

/// Cleaning up leaves no `.` behind and no `..` that a name before it
/// could still cancel: whatever `..` remain lead the path, all of them.
pub proof fn cleaning_up_leaves_nothing_to_resolve(cs: Seq<Part>)
    ensures
        clean(normalize(cs)),
    decreases cs.len(),
{
    if cs.len() > 0 {
        let o = normalize(cs.drop_last());
        cleaning_up_leaves_nothing_to_resolve(cs.drop_last());
        let c = cs.last();
        let n = normalize(cs);
        assert(n == norm_step(o, c));
        match c {
            Part::Cur => {},
            Part::Up => {
                if o.len() > 0 && o.last() is Name {
                    assert forall|i: int| 0 <= i < n.len() implies !(#[trigger] n[i] is Cur) by {
                        assert(n[i] == o[i]);
                    }
                    assert forall|i: int| 0 <= i < n.len() - 1 implies !(#[trigger] n[i] is Name
                        && n[i + 1] is Up) by {
                        assert(n[i] == o[i]);
                        assert(n[i + 1] == o[i + 1]);
                    }
                    assert forall|i: int, j: int| 0 <= j < i < n.len() && #[trigger] n[i] is Up
                        implies #[trigger] n[j] is Up by {
                        assert(n[i] == o[i]);
                        assert(n[j] == o[j]);
                    }
                } else if o.len() == 0 || o.last() is Up {
                    assert forall|i: int| 0 <= i < n.len() implies !(#[trigger] n[i] is Cur) by {
                        if i < o.len() {
                            assert(n[i] == o[i]);
                        }
                    }
                    assert forall|i: int| 0 <= i < n.len() - 1 implies !(#[trigger] n[i] is Name
                        && n[i + 1] is Up) by {
                        assert(n[i] == o[i]);
                        if i + 1 < o.len() {
                            assert(n[i + 1] == o[i + 1]);
                        }
                    }
                    assert forall|i: int, j: int| 0 <= j < i < n.len() && #[trigger] n[i] is Up
                        implies #[trigger] n[j] is Up by {
                        assert(n[j] == o[j]);
                        if i < o.len() {
                            assert(n[i] == o[i]);
                        } else {
                            assert(o[o.len() - 1] is Up);
                        }
                    }
                }
            },
            _ => {
                assert forall|i: int| 0 <= i < n.len() implies !(#[trigger] n[i] is Cur) by {
                    if i < o.len() {
                        assert(n[i] == o[i]);
                    }
                }
                assert forall|i: int| 0 <= i < n.len() - 1 implies !(#[trigger] n[i] is Name
                    && n[i + 1] is Up) by {
                    assert(n[i] == o[i]);
                    if i + 1 < o.len() {
                        assert(n[i + 1] == o[i + 1]);
                    } else {
                        assert(n[i + 1] == c);
                    }
                }
                assert forall|i: int, j: int| 0 <= j < i < n.len() && #[trigger] n[i] is Up
                    implies #[trigger] n[j] is Up by {
                    assert(n[j] == o[j]);
                    if i < o.len() {
                        assert(n[i] == o[i]);
                    } else {
                        assert(n[i] == c);
                    }
                }
            },
        }
    }
}

/// Components that are already clean come through the clean-up unchanged.
proof fn lemma_clean_is_fixed(ps: Seq<Part>)
    requires
        clean(ps),
    ensures
        normalize(ps) == ps,
    decreases ps.len(),
{
    if ps.len() > 0 {
        let o = ps.drop_last();
        assert(clean(o)) by {
            assert forall|i: int| 0 <= i < o.len() implies !(#[trigger] o[i] is Cur) by {
                assert(o[i] == ps[i]);
            }
            assert forall|i: int| 0 <= i < o.len() - 1 implies !(#[trigger] o[i] is Name
                && o[i + 1] is Up) by {
                assert(o[i] == ps[i]);
                assert(o[i + 1] == ps[i + 1]);
            }
            assert forall|i: int, j: int| 0 <= j < i < o.len() && #[trigger] o[i] is Up
                implies #[trigger] o[j] is Up by {
                assert(o[i] == ps[i]);
                assert(o[j] == ps[j]);
            }
        }
        lemma_clean_is_fixed(o);
        let c = ps.last();
        assert(!(c is Cur)) by {
            assert(ps[ps.len() - 1] == c);
        }
        if c is Up && o.len() > 0 {
            assert(ps[ps.len() - 1] is Up);
            assert(ps[ps.len() - 2] is Up);
            assert(o.last() == ps[ps.len() - 2]);
        }
        assert(o.push(c) =~= ps);
    }
}

/// Cleaning up twice is cleaning up once, component by component.
pub proof fn cleaning_up_twice_changes_nothing(cs: Seq<Part>)
    ensures
        normalize(normalize(cs)) == normalize(cs),
{
    cleaning_up_leaves_nothing_to_resolve(cs);
    lemma_clean_is_fixed(normalize(cs));
}

/// A copy of one component.
fn copy_part(p: &PathPart) -> (r: PathPart)
    ensures
        r@ == p@,
{
    match p {
        PathPart::Root => PathPart::Root,
        PathPart::Cur => PathPart::Cur,
        PathPart::Up => PathPart::Up,
        PathPart::Name(v) => {
            let c = slice_vec(v, 0, v.len());
            assert(c@ =~= v@);
            PathPart::Name(c)
        },
    }
}

/// Drops `.` components and resolves `..` against the preceding component,
/// purely on the path text: [`lexically_normal`].
pub fn lexical_normalize(p: &str) -> (r: String)
    ensures
        r@ == lexically_normal(p@),
{
    let v = chars_of(p);
    let parts = path_parts(&v);
    let ghost cs = part_views(parts@);
    let mut out: Vec<PathPart> = Vec::new();
    let mut i: usize = 0;
    assert(cs.take(0) =~= Seq::<Part>::empty());
    assert(part_views(out@) =~= Seq::<Part>::empty());
    while i < parts.len()
        invariant
            i <= parts@.len(),
            cs == part_views(parts@),
            part_views(out@) == normalize(cs.take(i as int)),
        decreases parts@.len() - i,
    {
        let ghost before = part_views(out@);
        proof {
            let upto = cs.take(i + 1);
            assert(upto.drop_last() =~= cs.take(i as int));
            assert(upto.last() == parts@[i as int]@);
        }
        match &parts[i] {
            PathPart::Cur => {},
            PathPart::Up => {
                let last_is_name = out.len() > 0 && match &out[out.len() - 1] {
                    PathPart::Name(_) => true,
                    _ => false,
                };
                let last_is_up = out.len() > 0 && match &out[out.len() - 1] {
                    PathPart::Up => true,
                    _ => false,
                };
                if last_is_name {
                    assert(before.last() == out@[out@.len() - 1]@);
                    out.pop();
                    assert(part_views(out@) =~= before.drop_last());
                } else if out.len() == 0 || last_is_up {
                    proof {
                        if out@.len() > 0 {
                            assert(before.last() == out@[out@.len() - 1]@);
                        }
                    }
                    out.push(PathPart::Up);
                    assert(part_views(out@) =~= before.push(Part::Up));
                } else {
                    assert(before.last() == out@[out@.len() - 1]@);
                }
            },
            other => {
                let c = copy_part(other);
                out.push(c);
                assert(part_views(out@) =~= before.push(parts@[i as int]@));
            },
        }
        i = i + 1;
    }
    assert(cs.take(parts@.len() as int) =~= cs);
    let mut t = render(&out);
    if t.len() == 0 {
        t.push('.');
        assert(t@ =~= seq!['.']);
    }
    string_of_chars(&t)
}

// ---------------------------------------------------------------------------
// File names, parents, extensions
// ---------------------------------------------------------------------------

/// `Path::file_name`: the last component when it is a name.
pub open spec fn file_name_of(cs: Seq<Part>) -> Option<Seq<char>> {
    if cs.len() > 0 {
        match cs.last() {
            Part::Name(s) => Some(s),
            _ => None,
        }
    } else {
        None
    }
}

/// `Path::parent`: everything but the last component; `None` for the empty
/// path and for one that ends in the root.
pub open spec fn parent_of(cs: Seq<Part>) -> Option<Seq<Part>> {
    if cs.len() > 0 && !(cs.last() is Root) {
        Some(cs.drop_last())
    } else {
        None
    }
}

/// The index of the last `.` in `s`, if any.
pub open spec fn last_dot(s: Seq<char>) -> Option<int>
    decreases s.len(),
{
    if s.len() == 0 {
        None
    } else if s.last() == '.' {
        Some(s.len() - 1)
    } else {
        last_dot(s.drop_last())
    }
}

/// `Path::extension` of a file name: what follows its last `.`, unless
/// there is none or the only one starts the name.
pub open spec fn extension_of(name: Seq<char>) -> Option<Seq<char>> {
    match last_dot(name) {
        Some(i) => if i == 0 {
            None
        } else {
            Some(name.skip(i + 1))
        },
        None => None,
    }
}

/// The `Contents/MacOS` of a `.app` bundle.
pub open spec fn app_bundle_macos(cs: Seq<Part>) -> bool {
    &&& file_name_of(cs) == Some("MacOS"@)
    &&& match parent_of(cs) {
        Some(p) => {
            &&& file_name_of(p) == Some("Contents"@)
            &&& match parent_of(p) {
                Some(g) => match file_name_of(g) {
                    Some(n) => extension_of(n) == Some("app"@),
                    None => false,
                },
                None => false,
            }
        },
        None => false,
    }
}

/// The name the last of `ps[..n]` carries, if it is one.
fn name_at(ps: &Vec<PathPart>, n: usize) -> (r: Option<&Vec<char>>)
    requires
        n <= ps@.len(),
    ensures
        match (r, file_name_of(part_views(ps@).take(n as int))) {
            (Some(v), Some(s)) => v@ == s,
            (None, None) => true,
            _ => false,
        },
{
    if n == 0 {
        return None;
    }
    assert(part_views(ps@).take(n as int).last() == ps@[n - 1]@);
    match &ps[n - 1] {
        PathPart::Name(v) => Some(v),
        _ => None,
    }
}

/// [`extension_of`] a name.
fn extension(name: &Vec<char>) -> (r: Option<Vec<char>>)
    ensures
        match (r, extension_of(name@)) {
            (Some(v), Some(s)) => v@ == s,
            (None, None) => true,
            _ => false,
        },
{
    let mut k = name.len();
    assert(name@.take(k as int) =~= name@);
    while k > 0 && name[k - 1] != '.'
        invariant
            k <= name@.len(),
            forall|j: int| k <= j < name@.len() ==> name@[j] != '.',
            last_dot(name@) == last_dot(name@.take(k as int)),
        decreases k,
    {
        proof {
            let t = name@.take(k as int);
            assert(t.drop_last() =~= name@.take(k - 1));
        }
        k = k - 1;
    }
    if k == 0 {
        assert(name@.take(0) =~= Seq::<char>::empty());
        return None;
    }
    assert(last_dot(name@.take(k as int)) == Some(k - 1));
    if k == 1 {
        None
    } else {
        let r = slice_vec(name, k, name.len());
        assert(r@ =~= name@.skip(k as int));
        Some(r)
    }
}

/// True when `dir` is the `Contents/MacOS/` of a `.app` bundle.
pub fn is_app_bundle_macos_dir(dir: &str) -> (b: bool)
    ensures
        b == app_bundle_macos(components(dir@)),
{
    let v = chars_of(dir);
    let ps = path_parts(&v);
    let ghost cs = part_views(ps@);
    let n = ps.len();
    assert(cs.take(n as int) =~= cs);
    if n < 3 {
        proof {
            if n >= 1 {
                assert(cs.drop_last() =~= cs.take(n - 1));
                if n >= 2 {
                    assert(cs.drop_last().drop_last() =~= cs.take(n - 2));
                    assert(cs.take(n - 2).len() == 0);
                }
            }
        }
        return false;
    }
    match name_at(&ps, n) {
        Some(a) => if !vec_eq_str(a, "MacOS") {
            return false;
        },
        None => return false,
    }
    let last_root = match &ps[n - 1] {
        PathPart::Root => true,
        _ => false,
    };
    assert(!last_root);
    assert(parent_of(cs) == Some(cs.take(n - 1))) by {
        assert(cs.drop_last() =~= cs.take(n - 1));
    }
    match name_at(&ps, n - 1) {
        Some(a) => if !vec_eq_str(a, "Contents") {
            return false;
        },
        None => return false,
    }
    assert(parent_of(cs.take(n - 1)) == Some(cs.take(n - 2))) by {
        assert(cs.take(n - 1).drop_last() =~= cs.take(n - 2));
        assert(cs.take(n - 1).last() == cs[n - 2]);
    }
    match name_at(&ps, n - 2) {
        Some(a) => match extension(a) {
            Some(e) => vec_eq_str(&e, "app"),
            None => false,
        },
        None => false,
    }
}

// ---------------------------------------------------------------------------
// Prefixes
// ---------------------------------------------------------------------------

/// `Path::starts_with`: `base`'s components are the first components of
/// `p`, whole components only.
pub open spec fn starts_with_path(p: Seq<char>, base: Seq<char>) -> bool {
    let a = components(p);
    let b = components(base);
    b.len() <= a.len() && a.take(b.len() as int) == b
}

/// Whether two components are the same.
fn same_part(a: &PathPart, b: &PathPart) -> (r: bool)
    ensures
        r == (a@ == b@),
{
    match (a, b) {
        (PathPart::Root, PathPart::Root) => true,
        (PathPart::Cur, PathPart::Cur) => true,
        (PathPart::Up, PathPart::Up) => true,
        (PathPart::Name(x), PathPart::Name(y)) => vec_eq(x, y),
        _ => false,
    }
}

/// [`starts_with_path`].
pub fn path_starts_with(p: &str, base: &str) -> (r: bool)
    ensures
        r == starts_with_path(p@, base@),
{
    let a = path_parts(&chars_of(p));
    let b = path_parts(&chars_of(base));
    assert(part_views(a@).len() == a@.len());
    assert(part_views(b@).len() == b@.len());
    if b.len() > a.len() {
        return false;
    }
    let mut i: usize = 0;
    while i < b.len()
        invariant
            b@.len() <= a@.len(),
            i <= b@.len(),
            part_views(a@) == components(p@),
            part_views(b@) == components(base@),
            forall|j: int| 0 <= j < i ==> a@[j]@ == #[trigger] b@[j]@,
        decreases b@.len() - i,
    {
        if !same_part(&a[i], &b[i]) {
            assert(part_views(a@).take(b@.len() as int)[i as int] == a@[i as int]@);
            assert(part_views(b@)[i as int] == b@[i as int]@);
            return false;
        }
        i = i + 1;
    }
    assert(part_views(a@).take(b@.len() as int) =~= part_views(b@));
    true
}

/// [`joined`] as a new string.
pub fn join_path(base: &str, part: &str) -> (r: String)
    ensures
        r@ == joined(base@, part@),
{
    let mut b = chars_of(base);
    let p = chars_of(part);
    push_path(&mut b, &p);
    string_of_chars(&b)
}

// ---------------------------------------------------------------------------
// Cleaning up a cleaned path
// ---------------------------------------------------------------------------

/// A name a component can carry: not empty, not `.` or `..`, and free of `/`.
pub open spec fn good_name(s: Seq<char>) -> bool {
    &&& s.len() > 0
    &&& s != seq!['.']
    &&& s != seq!['.', '.']
    &&& forall|j: int| 0 <= j < s.len() ==> s[j] != '/'
}

/// Components as a parsed path has them: the root only first, every name good.
pub open spec fn parsed_shape(ps: Seq<Part>) -> bool {
    forall|i: int|
        0 <= i < ps.len() ==> (#[trigger] ps[i] is Root ==> i == 0) && (ps[i] is Name
            ==> good_name(ps[i]->Name_0))
}

/// A parsed shape without `.`.
pub open spec fn tidy(ps: Seq<Part>) -> bool {
    &&& parsed_shape(ps)
    &&& forall|i: int| 0 <= i < ps.len() ==> !(#[trigger] ps[i] is Cur)
}

proof fn lemma_split_pieces(s: Seq<char>, c: char)
    ensures
        forall|k: int, j: int|
            0 <= k < split_all(s, c).len() && 0 <= j < split_all(s, c)[k].len()
                ==> #[trigger] split_all(s, c)[k][j] != c,
    decreases s.len(),
{
    lemma_first_index(s, c);
    match first_index(s, c) {
        Some(i) => {
            let tail = s.subrange(i + 1, s.len() as int);
            lemma_split_pieces(tail, c);
            let r = split_all(s, c);
            assert forall|k: int, j: int| 0 <= k < r.len() && 0 <= j < r[k].len() implies #[trigger] r[k][j]
                != c by {
                if k > 0 {
                    assert(r[k] == split_all(tail, c)[k - 1]);
                }
            }
        },
        None => {},
    }
}

proof fn lemma_named_shape(qs: Seq<Seq<char>>)
    requires
        forall|k: int, j: int| 0 <= k < qs.len() && 0 <= j < qs[k].len() ==> #[trigger] qs[k][j]
            != '/',
    ensures
        forall|i: int|
            0 <= i < named(qs).len() ==> !(#[trigger] named(qs)[i] is Root) && !(named(qs)[i] is Cur)
                && (named(qs)[i] is Name ==> good_name(named(qs)[i]->Name_0)),
    decreases qs.len(),
{
    if qs.len() > 0 {
        let d = qs.drop_last();
        assert forall|k: int, j: int| 0 <= k < d.len() && 0 <= j < d[k].len() implies #[trigger] d[k][j]
            != '/' by {
            assert(d[k] == qs[k]);
        }
        lemma_named_shape(d);
        let l = qs.last();
        assert forall|j: int| 0 <= j < l.len() implies l[j] != '/' by {
            assert(qs[qs.len() - 1] == l);
        }
    }
}

proof fn lemma_components_shape(p: Seq<char>)
    ensures
        parsed_shape(components(p)),
{
    let ps = split_all(p, '/');
    lemma_split_pieces(p, '/');
    assert(ps.len() >= 1) by {
        lemma_first_index(p, '/');
    }
    let d = ps.drop_first();
    assert forall|k: int, j: int| 0 <= k < d.len() && 0 <= j < d[k].len() implies #[trigger] d[k][j]
        != '/' by {
        assert(d[k] == ps[k + 1]);
    }
    lemma_named_shape(d);
    lemma_named_shape(ps);
    let cs = components(p);
    if p.len() > 0 && p[0] == '/' {
        assert forall|i: int| 0 <= i < cs.len() implies (#[trigger] cs[i] is Root ==> i == 0) && (
        cs[i] is Name ==> good_name(cs[i]->Name_0)) by {
            if i > 0 {
                assert(cs[i] == named(d)[i - 1]);
            }
        }
    } else if ps[0] == seq!['.'] {
        assert forall|i: int| 0 <= i < cs.len() implies (#[trigger] cs[i] is Root ==> i == 0) && (
        cs[i] is Name ==> good_name(cs[i]->Name_0)) by {
            if i > 0 {
                assert(cs[i] == named(d)[i - 1]);
            }
        }
    }
}

proof fn lemma_normalize_tidy(cs: Seq<Part>)
    requires
        parsed_shape(cs),
    ensures
        tidy(normalize(cs)),
    decreases cs.len(),
{
    if cs.len() > 0 {
        let d = cs.drop_last();
        assert forall|i: int| 0 <= i < d.len() implies (#[trigger] d[i] is Root ==> i == 0) && (
        d[i] is Name ==> good_name(d[i]->Name_0)) by {
            assert(d[i] == cs[i]);
        }
        lemma_normalize_tidy(d);
        let o = normalize(d);
        let c = cs.last();
        assert(c == cs[cs.len() - 1]);
        let n = normalize(cs);
        assert forall|i: int| 0 <= i < n.len() implies (#[trigger] n[i] is Root ==> i == 0) && (
        n[i] is Name ==> good_name(n[i]->Name_0)) && !(n[i] is Cur) by {
            if i < o.len() {
                assert(n[i] == o[i]);
            } else {
                assert(n[i] == c || n[i] == Part::Up);
                if n[i] is Root {
                    assert(c is Root);
                    assert(cs.len() == 1);
                }
            }
        }
    }
}

proof fn lemma_named_texts(ps: Seq<Part>)
    requires
        forall|i: int|
            0 <= i < ps.len() ==> (#[trigger] ps[i] is Up || (ps[i] is Name && good_name(
                ps[i]->Name_0,
            ))),
    ensures
        named(ps.map_values(|p: Part| part_text(p))) == ps,
    decreases ps.len(),
{
    if ps.len() > 0 {
        let d = ps.drop_last();
        assert forall|i: int| 0 <= i < d.len() implies (#[trigger] d[i] is Up || (d[i] is Name
            && good_name(d[i]->Name_0))) by {
            assert(d[i] == ps[i]);
        }
        lemma_named_texts(d);
        let m = ps.map_values(|p: Part| part_text(p));
        assert(m.drop_last() =~= d.map_values(|p: Part| part_text(p)));
        let l = ps.last();
        assert(l == ps[ps.len() - 1]);
        assert(m.last() == part_text(l));
        if l is Name {
            assert(piece_part(part_text(l)) == Some(l));
        } else {
            assert(piece_part(seq!['.', '.']) == Some(Part::Up));
        }
        assert(d.push(l) =~= ps);
    }
}

/// The text of components that are all `..` or good names: their pieces
/// split back at `/`, and it neither starts nor ends with `/`.
proof fn lemma_relative_text(ps: Seq<Part>)
    requires
        ps.len() > 0,
        forall|i: int|
            0 <= i < ps.len() ==> (#[trigger] ps[i] is Up || (ps[i] is Name && good_name(
                ps[i]->Name_0,
            ))),
    ensures
        split_all(text_of(ps), '/') == ps.map_values(|p: Part| part_text(p)),
        text_of(ps).len() > 0,
        text_of(ps)[0] != '/',
        text_of(ps).last() != '/',
    decreases ps.len(),
{
    let l = ps.last();
    assert(l == ps[ps.len() - 1]);
    let t = part_text(l);
    assert(t.len() > 0 && forall|j: int| 0 <= j < t.len() ==> t[j] != '/') by {
        if l is Up {
            assert(t == seq!['.', '.']);
        }
    }
    let d = ps.drop_last();
    if d.len() == 0 {
        assert(text_of(d) == Seq::<char>::empty());
        assert(text_of(ps) =~= t);
        lemma_split_one(t, '/');
        assert(ps.map_values(|p: Part| part_text(p)) =~= seq![t]);
    } else {
        assert forall|i: int| 0 <= i < d.len() implies (#[trigger] d[i] is Up || (d[i] is Name
            && good_name(d[i]->Name_0))) by {
            assert(d[i] == ps[i]);
        }
        lemma_relative_text(d);
        let b = text_of(d);
        assert(text_of(ps) == b + seq!['/'] + t);
        lemma_split_concat(b, t, '/');
        lemma_split_one(t, '/');
        assert(ps.map_values(|p: Part| part_text(p)) =~= d.map_values(|p: Part| part_text(p)).push(
            t,
        ));
        assert(split_all(text_of(ps), '/') =~= split_all(b, '/') + seq![t]);
        assert((b + seq!['/'] + t)[0] == b[0]);
    }
}

/// Behind the root, the text is `/` and then the rest's text.
proof fn lemma_rooted_text(rest: Seq<Part>)
    requires
        forall|i: int|
            0 <= i < rest.len() ==> (#[trigger] rest[i] is Up || (rest[i] is Name && good_name(
                rest[i]->Name_0,
            ))),
    ensures
        text_of(seq![Part::Root] + rest) == seq!['/'] + text_of(rest),
    decreases rest.len(),
{
    let ps = seq![Part::Root] + rest;
    if rest.len() == 0 {
        assert(ps =~= seq![Part::Root]);
        assert(ps.drop_last() =~= Seq::<Part>::empty());
        assert(text_of(ps) =~= seq!['/']);
        assert(seq!['/'] + text_of(rest) =~= seq!['/']);
    } else {
        let d = rest.drop_last();
        assert forall|i: int| 0 <= i < d.len() implies (#[trigger] d[i] is Up || (d[i] is Name
            && good_name(d[i]->Name_0))) by {
            assert(d[i] == rest[i]);
        }
        lemma_rooted_text(d);
        assert(ps.drop_last() =~= seq![Part::Root] + d);
        let l = rest.last();
        assert(l == rest[rest.len() - 1]);
        assert(ps.last() == l);
        let t = part_text(l);
        assert(t.len() > 0 && t[0] != '/') by {
            if l is Up {
                assert(t == seq!['.', '.']);
            }
        }
        if d.len() == 0 {
            assert(text_of(d) == Seq::<char>::empty());
            assert(rest.drop_last() == d);
            assert(text_of(rest) =~= t);
            assert(text_of(ps) =~= seq!['/'] + t);
        } else {
            lemma_relative_text(d);
            let b = text_of(d);
            assert((seq!['/'] + b).last() == b.last());
            assert(text_of(ps) =~= seq!['/'] + (b + seq!['/'] + t));
        }
    }
}

/// Tidy components come back unchanged from their own text.
proof fn lemma_tidy_round_trip(ps: Seq<Part>)
    requires
        tidy(ps),
        ps.len() > 0,
    ensures
        text_of(ps).len() > 0,
        components(text_of(ps)) == ps,
{
    if ps[0] is Root {
        let rest = ps.drop_first();
        assert forall|i: int| 0 <= i < rest.len() implies (#[trigger] rest[i] is Up || (
        rest[i] is Name && good_name(rest[i]->Name_0))) by {
            assert(rest[i] == ps[i + 1]);
        }
        assert(ps =~= seq![Part::Root] + rest);
        lemma_rooted_text(rest);
        let r = text_of(rest);
        let p = text_of(ps);
        assert(p == Seq::<char>::empty() + seq!['/'] + r);
        lemma_split_concat(Seq::<char>::empty(), r, '/');
        lemma_split_one(Seq::<char>::empty(), '/');
        let sp = split_all(p, '/');
        assert(sp.drop_first() =~= split_all(r, '/'));
        if rest.len() == 0 {
            assert(r == Seq::<char>::empty());
            lemma_split_one(r, '/');
            lemma_named_one_empty();
            assert(components(p) =~= ps);
        } else {
            lemma_relative_text(rest);
            lemma_named_texts(rest);
            assert(components(p) =~= ps);
        }
    } else {
        assert forall|i: int| 0 <= i < ps.len() implies (#[trigger] ps[i] is Up || (ps[i] is Name
            && good_name(ps[i]->Name_0))) by {
            if ps[i] is Root {
                assert(i == 0);
            }
        }
        lemma_relative_text(ps);
        lemma_named_texts(ps);
        let sp = split_all(text_of(ps), '/');
        assert(sp[0] == part_text(ps[0]));
        assert(sp[0] != seq!['.']) by {
            if ps[0] is Up {
                assert(part_text(ps[0]).len() == 2);
            }
        }
    }
}

proof fn lemma_named_one_empty()
    ensures
        named(seq![Seq::<char>::empty()]) == Seq::<Part>::empty(),
{
    let e = seq![Seq::<char>::empty()];
    assert(e.last() == Seq::<char>::empty());
    assert(piece_part(Seq::<char>::empty()) is None);
    assert(e.drop_last() =~= Seq::<Seq<char>>::empty());
    assert(named(e.drop_last()) == Seq::<Part>::empty());
}

/// `.` cleans up to itself.
proof fn lemma_dot_is_clean()
    ensures
        lexically_normal(seq!['.']) == seq!['.'],
{
    let dot = seq!['.'];
    lemma_split_one(dot, '/');
    let sp = split_all(dot, '/');
    assert(sp.drop_first() =~= Seq::<Seq<char>>::empty());
    assert(named(Seq::<Seq<char>>::empty()) == Seq::<Part>::empty());
    assert(sp[0] == dot);
    assert(components(dot) =~= seq![Part::Cur]);
    assert(seq![Part::Cur].drop_last() =~= Seq::<Part>::empty());
    assert(normalize(Seq::<Part>::empty()) == Seq::<Part>::empty());
    assert(normalize(seq![Part::Cur]) == Seq::<Part>::empty());
    assert(text_of(Seq::<Part>::empty()) == Seq::<char>::empty());
}

/// Cleaning up a path that is already clean gives it back unchanged.
pub proof fn cleaning_up_a_clean_path_changes_nothing(p: Seq<char>)
    ensures
        lexically_normal(lexically_normal(p)) == lexically_normal(p),
{
    let n = normalize(components(p));
    lemma_components_shape(p);
    lemma_normalize_tidy(components(p));
    cleaning_up_leaves_nothing_to_resolve(components(p));
    if n.len() == 0 {
        assert(text_of(n) == Seq::<char>::empty());
        assert(lexically_normal(p) == seq!['.']);
        lemma_dot_is_clean();
    } else {
        lemma_tidy_round_trip(n);
        lemma_clean_is_fixed(n);
        assert(lexically_normal(p) == text_of(n));
    }
}

proof fn lemma_normalize_keeps_root(cs: Seq<Part>)
    requires
        cs.len() > 0,
        cs[0] is Root,
    ensures
        normalize(cs).len() > 0,
        normalize(cs)[0] is Root,
    decreases cs.len(),
{
    let d = cs.drop_last();
    if cs.len() == 1 {
        assert(d =~= Seq::<Part>::empty());
        assert(normalize(d) == Seq::<Part>::empty());
        assert(cs.last() == cs[0]);
    } else {
        assert(d[0] == cs[0]);
        lemma_normalize_keeps_root(d);
        let o = normalize(d);
        if o.len() == 1 {
            assert(o.last() == o[0]);
        }
    }
}

proof fn lemma_normalize_rootless(cs: Seq<Part>)
    requires
        forall|i: int| 0 <= i < cs.len() ==> !(#[trigger] cs[i] is Root),
    ensures
        forall|i: int| 0 <= i < normalize(cs).len() ==> !(#[trigger] normalize(cs)[i] is Root),
    decreases cs.len(),
{
    if cs.len() > 0 {
        let d = cs.drop_last();
        assert forall|i: int| 0 <= i < d.len() implies !(#[trigger] d[i] is Root) by {
            assert(d[i] == cs[i]);
        }
        lemma_normalize_rootless(d);
        let o = normalize(d);
        let n = normalize(cs);
        assert(!(cs[cs.len() - 1] is Root));
        assert forall|i: int| 0 <= i < n.len() implies !(#[trigger] n[i] is Root) by {
            if i < o.len() {
                assert(n[i] == o[i]);
            }
        }
    }
}

proof fn lemma_cleaned_root(p: Seq<char>)
    ensures
        (p.len() > 0 && p[0] == '/') ==> normalize(components(p)).len() > 0 && normalize(
            components(p),
        )[0] is Root,
        !(p.len() > 0 && p[0] == '/') ==> forall|i: int|
            0 <= i < normalize(components(p)).len() ==> !(#[trigger] normalize(components(p))[i] is Root),
{
    let cs = components(p);
    lemma_components_shape(p);
    if p.len() > 0 && p[0] == '/' {
        assert(cs[0] is Root);
        lemma_normalize_keeps_root(cs);
    } else {
        let ps = split_all(p, '/');
        lemma_split_pieces(p, '/');
        assert(ps.len() >= 1) by {
            lemma_first_index(p, '/');
        }
        let d = ps.drop_first();
        assert forall|k: int, j: int| 0 <= k < d.len() && 0 <= j < d[k].len() implies #[trigger] d[k][j]
            != '/' by {
            assert(d[k] == ps[k + 1]);
        }
        lemma_named_shape(d);
        lemma_named_shape(ps);
        assert forall|i: int| 0 <= i < cs.len() implies !(#[trigger] cs[i] is Root) by {
            if ps[0] == seq!['.'] {
                if i > 0 {
                    assert(cs[i] == named(d)[i - 1]);
                }
            }
        }
        lemma_normalize_rootless(cs);
    }
}

/// The text of tidy components starts with `/` exactly when they start
/// with the root.
proof fn lemma_tidy_text_anchor(n: Seq<Part>)
    requires
        tidy(n),
        n.len() > 0,
    ensures
        (text_of(n)[0] == '/') == (n[0] is Root),
        text_of(n).len() > 0,
{
    lemma_tidy_round_trip(n);
    if n[0] is Root {
        let rest = n.drop_first();
        assert forall|i: int| 0 <= i < rest.len() implies (#[trigger] rest[i] is Up || (
        rest[i] is Name && good_name(rest[i]->Name_0))) by {
            assert(rest[i] == n[i + 1]);
        }
        assert(n =~= seq![Part::Root] + rest);
        lemma_rooted_text(rest);
    } else {
        assert forall|i: int| 0 <= i < n.len() implies (#[trigger] n[i] is Up || (n[i] is Name
            && good_name(n[i]->Name_0))) by {
            if n[i] is Root {
                assert(i == 0);
            }
        }
        lemma_relative_text(n);
    }
}

/// A cleaned path is absolute exactly when the path was, and unless it is
/// `.` it reads back as the cleaned components: no `.`, no `..` after a
/// name or after the root, every remaining `..` at the front.
pub proof fn a_cleaned_path_keeps_its_anchor_and_nothing_to_resolve(p: Seq<char>)
    ensures
        lexically_normal(p).len() > 0,
        (lexically_normal(p)[0] == '/') == (p.len() > 0 && p[0] == '/'),
        lexically_normal(p) != seq!['.'] ==> components(lexically_normal(p)) == normalize(
            components(p),
        ) && clean(components(lexically_normal(p))),
{
    let n = normalize(components(p));
    lemma_components_shape(p);
    lemma_normalize_tidy(components(p));
    cleaning_up_leaves_nothing_to_resolve(components(p));
    lemma_cleaned_root(p);
    if n.len() == 0 {
        assert(text_of(n) == Seq::<char>::empty());
        assert(lexically_normal(p) == seq!['.']);
    } else {
        lemma_tidy_round_trip(n);
        lemma_tidy_text_anchor(n);
        assert(lexically_normal(p) == text_of(n));
    }
}

} // verus!
