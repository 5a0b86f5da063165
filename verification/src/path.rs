//! Paths guaranteed absolute or relative, over Unix path text.
//!
//! [`AbsPath`] / [`AbsPathBuf`] and [`RelPath`] / [`RelPathBuf`] mirror the
//! borrowed / owned split of `std::path`, adding the invariant that the path
//! is absolute (starts with `/`) or relative (does not). Joining, parents and
//! components follow `std::path` on Unix: `/` separates, repeated
//! separators and interior `.` pieces are ignored, and a `.` that opens a
//! relative path is kept.

use vstd::prelude::*;
use vstd::string::StrSliceExecFns;

use crate::fsplan::file_name_of;
use crate::text::{chars_of, push_chars, push_str, string_of};

verus! {

/// The path text is absolute.
pub open spec fn is_abs(t: Seq<char>) -> bool {
    t.len() > 0 && t[0] == '/'
}

/// `base` joined with `tail`: an absolute `tail` replaces `base`; otherwise
/// `tail` is appended, after a `/` unless `base` is empty or ends in one.
pub open spec fn joined(base: Seq<char>, tail: Seq<char>) -> Seq<char> {
    if is_abs(tail) {
        tail
    } else if base.len() == 0 || base.last() == '/' {
        base + tail
    } else {
        base + "/"@ + tail
    }
}

/// `std::path::PathBuf::push` on Unix, on path text.
pub fn join_text(base: &str, tail: &str) -> (r: String)
    ensures
        r@ == joined(base@, tail@),
{
    let b = chars_of(base);
    let t = chars_of(tail);
    if t.len() > 0 && t[0] == '/' {
        return string_of(&t);
    }
    let mut out: Vec<char> = b.clone();
    if b.len() > 0 && b[b.len() - 1] != '/' {
        out.push('/');
        proof {
            reveal_strlit("/");
            assert(b@ + "/"@ =~= b@.push('/'));
        }
    }
    push_chars(&mut out, &t);
    string_of(&out)
}

/// A component of a path, as `std::path::Component` names them on Unix.
pub enum Component {
    RootDir,
    CurDir,
    ParentDir,
    Normal(String),
}

/// The meaning of a component.
pub enum Part {
    Root,
    Cur,
    Parent,
    Normal(Seq<char>),
}

impl View for Component {
    type V = Part;

    open spec fn view(&self) -> Part {
        match self {
            Component::RootDir => Part::Root,
            Component::CurDir => Part::Cur,
            Component::ParentDir => Part::Parent,
            Component::Normal(s) => Part::Normal(s@),
        }
    }
}

/// What the piece `t[s..e]` between separators contributes: nothing when
/// empty or an interior `.`.
pub open spec fn piece_part(t: Seq<char>, s: int, e: int) -> Option<Part> {
    let piece = t.subrange(s, e);
    if piece.len() == 0 {
        None
    } else if piece == "."@ {
        if s == 0 {
            Some(Part::Cur)
        } else {
            None
        }
    } else if piece == ".."@ {
        Some(Part::Parent)
    } else {
        Some(Part::Normal(piece))
    }
}

/// `ps` with the part of `t[s..e]`, if any, recorded as ending at `e`.
pub open spec fn push_piece(ps: Seq<(Part, int)>, t: Seq<char>, s: int, e: int) -> Seq<(Part, int)> {
    match piece_part(t, s, e) {
        Some(p) => ps.push((p, e)),
        None => ps,
    }
}

/// After reading `t[0..k]`: the parts found (each with the position where
/// its text ends) and where the piece being read starts.
pub open spec fn scan(t: Seq<char>, k: nat) -> (Seq<(Part, int)>, int)
    decreases k,
{
    if k == 0 {
        (if is_abs(t) { seq![(Part::Root, 1int)] } else { Seq::empty() }, 0)
    } else {
        let prev = scan(t, (k - 1) as nat);
        if t[k - 1] == '/' {
            (push_piece(prev.0, t, prev.1, k - 1), k as int)
        } else {
            prev
        }
    }
}

/// The parts of `t` with their end positions.
pub open spec fn parts_ends(t: Seq<char>) -> Seq<(Part, int)> {
    let last = scan(t, t.len());
    push_piece(last.0, t, last.1, t.len() as int)
}

/// The components of `t`.
pub open spec fn parts(t: Seq<char>) -> Seq<Part> {
    parts_ends(t).map_values(|pe: (Part, int)| pe.0)
}

/// The parent of `t`: its text up to the end of the second-to-last
/// component; none when `t` is empty or ends in the root.
pub open spec fn parent_text(t: Seq<char>) -> Option<Seq<char>> {
    let pe = parts_ends(t);
    if pe.len() == 0 || pe.last().0 is Root {
        None
    } else if pe.len() == 1 {
        Some(Seq::empty())
    } else {
        Some(t.subrange(0, pe[pe.len() - 2].1))
    }
}

/// Adds the part of `t[s..e]`, if any, to `out`.
fn push_piece_exec(out: &mut Vec<(Component, usize)>, t: &Vec<char>, s: usize, e: usize)
    requires
        s <= e <= t@.len(),
    ensures
        final(out)@.len() == old(out)@.len() || final(out)@.len() == old(out)@.len() + 1,
        ends_view(final(out)@) == push_piece(ends_view(old(out)@), t@, s as int, e as int),
{
    proof {
        reveal_strlit(".");
        reveal_strlit("..");
    }
    let ghost piece = t@.subrange(s as int, e as int);
    if e == s {
        return;
    }
    if e - s == 1 && t[s] == '.' {
        proof {
            assert(piece =~= "."@);
        }
        if s == 0 {
            let ghost before = out@;
            out.push((Component::CurDir, e));
            proof {
                assert(ends_view(out@) =~= ends_view(before).push((Part::Cur, e as int)));
            }
        }
        return;
    }
    proof {
        if piece == "."@ {
            assert(piece.len() == 1 && piece[0] == t@[s as int]);
        }
    }
    if e - s == 2 && t[s] == '.' && t[s + 1] == '.' {
        proof {
            assert(piece =~= ".."@);
        }
        let ghost before = out@;
        out.push((Component::ParentDir, e));
        proof {
            assert(ends_view(out@) =~= ends_view(before).push((Part::Parent, e as int)));
        }
        return;
    }
    proof {
        if piece == ".."@ {
            assert(piece.len() == 2 && piece[0] == '.' && piece[1] == '.');
        }
    }
    let mut text: Vec<char> = Vec::new();
    let mut i: usize = s;
    while i < e
        invariant
            s <= i <= e <= t@.len(),
            text@ == t@.subrange(s as int, i as int),
        decreases e - i,
    {
        text.push(t[i]);
        proof {
            assert(t@.subrange(s as int, i + 1) =~= t@.subrange(s as int, i as int).push(t@[i as int]));
        }
        i = i + 1;
    }
    let name = string_of(&text);
    let ghost before = out@;
    out.push((Component::Normal(name), e));
    proof {
        assert(ends_view(out@) =~= ends_view(before).push((Part::Normal(piece), e as int)));
    }
}

/// The parts and end positions of a scan result.
pub open spec fn ends_view(v: Seq<(Component, usize)>) -> Seq<(Part, int)> {
    v.map_values(|ce: (Component, usize)| (ce.0@, ce.1 as int))
}

/// The components of `t` with their end positions.
fn scan_exec(t: &Vec<char>) -> (r: Vec<(Component, usize)>)
    ensures
        ends_view(r@) == parts_ends(t@),
{
    let mut out: Vec<(Component, usize)> = Vec::new();
    if t.len() > 0 && t[0] == '/' {
        out.push((Component::RootDir, 1));
    }
    proof {
        assert(ends_view(out@) =~= scan(t@, 0).0);
    }
    let mut s: usize = 0;
    let mut k: usize = 0;
    while k < t.len()
        invariant
            k <= t@.len(),
            s <= k,
            ends_view(out@) == scan(t@, k as nat).0,
            s == scan(t@, k as nat).1,
        decreases t@.len() - k,
    {
        if t[k] == '/' {
            push_piece_exec(&mut out, t, s, k);
            s = k + 1;
        }
        k = k + 1;
    }
    push_piece_exec(&mut out, t, s, t.len());
    out
}

/// The components of path text `t`.
pub fn components_of(t: &str) -> (r: Vec<Component>)
    ensures
        r@.map_values(|c: Component| c@) == parts(t@),
{
    let chars = chars_of(t);
    let pe = scan_exec(&chars);
    let mut r: Vec<Component> = Vec::new();
    let mut i: usize = 0;
    while i < pe.len()
        invariant
            i <= pe@.len(),
            ends_view(pe@) == parts_ends(t@),
            r@.map_values(|c: Component| c@) == ends_view(pe@).subrange(0, i as int).map_values(
                |x: (Part, int)| x.0,
            ),
        decreases pe@.len() - i,
    {
        let c = match &pe[i].0 {
            Component::RootDir => Component::RootDir,
            Component::CurDir => Component::CurDir,
            Component::ParentDir => Component::ParentDir,
            Component::Normal(s) => Component::Normal(s.clone()),
        };
        let ghost before = r@;
        r.push(c);
        proof {
            assert(r@.map_values(|c: Component| c@) =~= before.map_values(|c: Component| c@).push(c@));
            assert(ends_view(pe@).subrange(0, i + 1) =~= ends_view(pe@).subrange(0, i as int).push(
                ends_view(pe@)[i as int],
            ));
            assert(ends_view(pe@).subrange(0, i + 1).map_values(|x: (Part, int)| x.0) =~= ends_view(pe@).subrange(
                0,
                i as int,
            ).map_values(|x: (Part, int)| x.0).push(ends_view(pe@)[i as int].0));
        }
        i = i + 1;
    }
    proof {
        assert(ends_view(pe@).subrange(0, pe@.len() as int) =~= ends_view(pe@));
    }
    r
}

/// How many characters of `t` its parent keeps, if it has one.
fn parent_len(t: &str) -> (r: Option<usize>)
    ensures
        match r {
            Some(n) => n <= t@.len() && parent_text(t@) == Some(t@.subrange(0, n as int)),
            None => parent_text(t@) is None,
        },
{
    let chars = chars_of(t);
    let pe = scan_exec(&chars);
    let n = pe.len();
    proof {
        assert(ends_view(pe@).len() == n);
    }
    if n == 0 {
        return None;
    }
    proof {
        assert(ends_view(pe@).last() == (pe@[n - 1].0@, pe@[n - 1].1 as int));
    }
    if let Component::RootDir = pe[n - 1].0 {
        return None;
    }
    if n == 1 {
        proof {
            assert(t@.subrange(0, 0) =~= Seq::<char>::empty());
        }
        return Some(0);
    }
    let e = pe[n - 2].1;
    proof {
        assert(ends_view(pe@)[n - 2] == (pe@[n - 2].0@, e as int));
        lemma_ends_bounded(t@);
    }
    Some(e)
}

/// Every recorded end position lies within the text, past its first
/// character; an absolute path starts with its root.
proof fn lemma_ends_bounded(t: Seq<char>)
    ensures
        forall|i: int| 0 <= i < parts_ends(t).len() ==> 1 <= #[trigger] parts_ends(t)[i].1 <= t.len(),
        is_abs(t) ==> parts_ends(t).len() >= 1 && parts_ends(t)[0] == (Part::Root, 1int),
{
    lemma_scan_bounded(t, t.len());
}

/// Part end positions rise strictly, and none passes the piece being read.
proof fn lemma_scan_rising(t: Seq<char>, k: nat)
    requires
        k <= t.len(),
    ensures
        forall|i: int, j: int| 0 <= i < j < scan(t, k).0.len() ==> scan(t, k).0[i].1 < scan(t, k).0[j].1,
        forall|i: int|
            0 <= i < scan(t, k).0.len() ==> scan(t, k).0[i].1 <= scan(t, k).1 || (k == 0 && scan(t, k).0[i].1 == 1),
        0 <= scan(t, k).1 <= k,
    decreases k,
{
    if k > 0 {
        lemma_scan_rising(t, (k - 1) as nat);
        let prev = scan(t, (k - 1) as nat);
        if t[k - 1] == '/' {
            let ps = push_piece(prev.0, t, prev.1, k - 1);
            if piece_part(t, prev.1, k - 1) is Some {
                assert(t.subrange(prev.1, k - 1).len() > 0);
                if k - 1 == 0 {
                    assert(t.subrange(prev.1, k - 1).len() == 0);
                }
                assert forall|i: int, j: int| 0 <= i < j < ps.len() implies ps[i].1 < ps[j].1 by {
                    if j == ps.len() - 1 {
                        assert(prev.0[i].1 <= prev.1);
                    }
                }
            }
        }
    } else {
        if is_abs(t) {
            assert(scan(t, 0).0 =~= seq![(Part::Root, 1int)]);
        }
    }
}

/// The parent of a path is shorter than the path.
pub proof fn lemma_parent_shorter(t: Seq<char>)
    requires
        parent_text(t) is Some,
    ensures
        (parent_text(t)->0).len() < t.len(),
{
    lemma_scan_rising(t, t.len());
    lemma_ends_bounded(t);
    let last = scan(t, t.len());
    let pe = parts_ends(t);
    if pe.len() >= 2 {
        if piece_part(t, last.1, t.len() as int) is Some {
            assert(t.subrange(last.1, t.len() as int).len() > 0);
            assert forall|i: int, j: int| 0 <= i < j < pe.len() implies pe[i].1 < pe[j].1 by {
                if j == pe.len() - 1 {
                    assert(last.0[i].1 <= last.1);
                }
            }
        }
        assert(pe[pe.len() - 2].1 < pe[pe.len() - 1].1);
    }
}

/// `t` and its ancestors, nearest first.
pub open spec fn ancestors(t: Seq<char>) -> Seq<Seq<char>>
    decreases t.len(),
{
    match parent_text(t) {
        Some(p) => if p.len() < t.len() {
            seq![t] + ancestors(p)
        } else {
            seq![t]
        },
        None => seq![t],
    }
}

/// Consecutive ancestors: the one after position `k` is the parent of
/// the one at `k`, and the list ends exactly where a path has no parent.
pub proof fn lemma_ancestor_step(t: Seq<char>, k: int)
    requires
        0 <= k < ancestors(t).len(),
    ensures
        match parent_text(ancestors(t)[k]) {
            Some(p) => k + 1 < ancestors(t).len() && ancestors(t)[k + 1] == p,
            None => k + 1 == ancestors(t).len(),
        },
    decreases t.len(),
{
    match parent_text(t) {
        Some(p) => {
            lemma_parent_shorter(t);
            assert(ancestors(t) == seq![t] + ancestors(p));
            assert(ancestors(p)[0] == p);
            if k > 0 {
                lemma_ancestor_step(p, k - 1);
                assert(ancestors(t)[k] == ancestors(p)[k - 1]);
            }
        },
        None => {},
    }
}

/// The parent of an ancestor is an ancestor.
pub proof fn lemma_ancestors_closed(t: Seq<char>, x: Seq<char>)
    requires
        ancestors(t).contains(x),
        parent_text(x) is Some,
    ensures
        ancestors(t).contains(parent_text(x)->0),
    decreases t.len(),
{
    lemma_parent_shorter(x);
    let a = ancestors(t);
    if x == t {
        let p = parent_text(t)->0;
        assert(ancestors(p)[0] == p);
        assert(a[1] == p);
    } else {
        match parent_text(t) {
            Some(p) => {
                lemma_parent_shorter(t);
                let k = choose|k: int| 0 <= k < a.len() && a[k] == x;
                assert(k >= 1);
                assert(ancestors(p)[k - 1] == x);
                lemma_ancestors_closed(p, x);
                let q = parent_text(x)->0;
                let j = choose|j: int| 0 <= j < ancestors(p).len() && ancestors(p)[j] == q;
                assert(a[j + 1] == q);
            },
            None => {
                assert(a.len() == 1);
            },
        }
    }
}

/// The parent of an absolute path is absolute.
proof fn lemma_parent_abs(t: Seq<char>)
    requires
        is_abs(t),
        parent_text(t) is Some,
    ensures
        is_abs(parent_text(t)->0),
{
    lemma_ends_bounded(t);
    let pe = parts_ends(t);
    assert(pe.len() >= 2);
    let e = pe[pe.len() - 2].1;
    assert(1 <= e <= t.len());
}

/// Joining onto an absolute path gives an absolute path.
proof fn lemma_join_abs(base: Seq<char>, tail: Seq<char>)
    requires
        is_abs(base),
    ensures
        is_abs(joined(base, tail)),
{
    let j = joined(base, tail);
    if !is_abs(tail) {
        if base.last() == '/' {
            assert(j[0] == base[0]);
        } else {
            assert(j[0] == base[0]);
        }
    }
}

/// The text is absolute.
fn is_abs_text(t: &str) -> (b: bool)
    ensures
        b == is_abs(t@),
{
    let c = chars_of(t);
    c.len() > 0 && c[0] == '/'
}

/// `std::path::Path::exists`: whether the file system has an entry at
/// `path` when asked; nothing is stated of the answer.
#[verifier::external_body]
fn fs_exists(path: &str) -> bool {
    std::path::Path::new(path).exists()
}

/// `std::path::Path::is_dir`: whether the file system has a directory at
/// `path` when asked; nothing is stated of the answer.
#[verifier::external_body]
fn fs_is_dir(path: &str) -> bool {
    std::path::Path::new(path).is_dir()
}

/// `std::path::Path::is_file`: whether the file system has a regular file
/// at `path` when asked; nothing is stated of the answer.
#[verifier::external_body]
fn fs_is_file(path: &str) -> bool {
    std::path::Path::new(path).is_file()
}

/// The components of `child` end the components of `t`
/// (`std::path::Path::ends_with`: whole components only).
pub open spec fn ends_with_parts(t: Seq<char>, child: Seq<char>) -> bool {
    let a = parts(t);
    let b = parts(child);
    b.len() <= a.len() && a.subrange(a.len() - b.len(), a.len() as int) == b
}

/// Two components are the same.
fn same_component(a: &Component, b: &Component) -> (r: bool)
    ensures
        r == (a@ == b@),
{
    match (a, b) {
        (Component::RootDir, Component::RootDir) => true,
        (Component::CurDir, Component::CurDir) => true,
        (Component::ParentDir, Component::ParentDir) => true,
        (Component::Normal(x), Component::Normal(y)) => crate::text::same(x.as_str(), y.as_str()),
        _ => false,
    }
}

/// Whether the path text `t` ends with the components of `child`.
pub fn text_ends_with(t: &str, child: &str) -> (r: bool)
    ensures
        r == ends_with_parts(t@, child@),
{
    let a = components_of(t);
    let b = components_of(child);
    let ghost av = a@.map_values(|c: Component| c@);
    let ghost bv = b@.map_values(|c: Component| c@);
    if b.len() > a.len() {
        return false;
    }
    let off = a.len() - b.len();
    let mut i: usize = 0;
    while i < b.len()
        invariant
            i <= b@.len(),
            off + b@.len() == a@.len(),
            a@.len() == a.len(),
            av == a@.map_values(|c: Component| c@),
            bv == b@.map_values(|c: Component| c@),
            av == parts(t@),
            bv == parts(child@),
            forall|k: int| 0 <= k < i ==> av[off + k] == bv[k],
        decreases b@.len() - i,
    {
        if !same_component(&a[off + i], &b[i]) {
            proof {
                assert(av.subrange(off as int, av.len() as int)[i as int] != bv[i as int]);
            }
            return false;
        }
        i = i + 1;
    }
    proof {
        assert(av.subrange(off as int, av.len() as int) =~= bv);
    }
    true
}

/// The parent of path text `t`, if it has one.
pub fn parent_string(t: &str) -> (r: Option<String>)
    ensures
        match r {
            Some(p) => parent_text(t@) == Some(p@),
            None => parent_text(t@) is None,
        },
{
    match parent_len(t) {
        Some(n) => Some(t.substring_char(0, n).to_owned()),
        None => None,
    }
}

/// A borrowed path that is guaranteed to be absolute.
#[derive(Clone, Copy, Debug)]
pub struct AbsPath<'a> {
    path: &'a str,
}

impl<'a> AbsPath<'a> {
    #[verifier::type_invariant]
    spec fn inv(self) -> bool {
        is_abs(self.path@)
    }

    /// The path text.
    pub closed spec fn text(self) -> Seq<char> {
        self.path@
    }


    /// Wrap `path` if it is absolute, otherwise return `None`.
    pub fn new(path: &'a str) -> (r: Option<Self>)
        ensures
            r is Some <==> is_abs(path@),
            r matches Some(p) ==> p.text() == path@,
    {
        if is_abs_text(path) {
            Some(AbsPath { path })
        } else {
            None
        }
    }

    /// Join a path component onto this absolute path.
    ///
    /// The result is always absolute: if `tail` is absolute it replaces
    /// `self`; otherwise it is appended.
    pub fn join(&self, tail: &str) -> (r: AbsPathBuf)
        ensures
            r.text() == joined(self.text(), tail@),
            is_abs(r.text()),
    {
        proof {
            use_type_invariant(self);
            lemma_join_abs(self.path@, tail@);
        }
        AbsPathBuf { path: join_text(self.path, tail) }
    }

    /// Return the parent directory, if any, as an [`AbsPath`].
    pub fn parent(&self) -> (r: Option<AbsPath<'a>>)
        ensures
            match r {
                Some(p) => parent_text(self.text()) == Some(p.text()) && is_abs(p.text()),
                None => parent_text(self.text()) is None,
            },
    {
        proof {
            use_type_invariant(self);
        }
        match parent_len(self.path) {
            Some(n) => {
                proof {
                    lemma_parent_abs(self.path@);
                }
                Some(AbsPath { path: self.path.substring_char(0, n) })
            },
            None => None,
        }
    }

    /// The final component of this path, when it is a plain name.
    pub fn file_name(&self) -> (r: Option<String>)
        ensures
            match r {
                Some(n) => file_name_of(self.text()) == Some(n@),
                None => file_name_of(self.text()) is None,
            },
    {
        crate::fsplan::file_name(self.path)
    }

    /// The components of this path.
    pub fn components(&self) -> (r: Vec<Component>)
        ensures
            r@.map_values(|c: Component| c@) == parts(self.text()),
    {
        components_of(self.path)
    }

    /// Whether this path ends with the components of `child`.
    pub fn ends_with(&self, child: &str) -> (r: bool)
        ensures
            r == ends_with_parts(self.text(), child@),
    {
        text_ends_with(self.path, child)
    }

    /// Tests whether this path points to an existing entity on disk.
    pub fn exists_on_disk(&self) -> bool {
        fs_exists(self.path)
    }

    /// Tests whether this path points to a directory.
    pub fn is_dir(&self) -> bool {
        fs_is_dir(self.path)
    }

    /// Tests whether this path points to a regular file.
    pub fn is_file(&self) -> bool {
        fs_is_file(self.path)
    }

    /// Yield the underlying path text.
    pub fn as_path(&self) -> (r: &'a str)
        ensures
            r@ == self.text(),
    {
        self.path
    }

    /// Convert to an owned [`AbsPathBuf`].
    pub fn to_abs_path_buf(&self) -> (r: AbsPathBuf)
        ensures
            r.text() == self.text(),
            is_abs(r.text()),
    {
        proof {
            use_type_invariant(self);
        }
        AbsPathBuf { path: self.path.to_string() }
    }
}

/// An owned path that is guaranteed to be absolute.
#[derive(Debug)]
pub struct AbsPathBuf {
    path: String,
}

impl Clone for AbsPathBuf {
    fn clone(&self) -> (r: Self)
        ensures
            r.text() == self.text(),
    {
        proof {
            use_type_invariant(self);
        }
        AbsPathBuf { path: self.path.clone() }
    }
}

impl AbsPathBuf {
    #[verifier::type_invariant]
    spec fn inv(self) -> bool {
        is_abs(self.path@)
    }

    /// The path text.
    pub closed spec fn text(self) -> Seq<char> {
        self.path@
    }


    /// Wrap `path` if it is absolute, otherwise return `None`.
    pub fn new(path: String) -> (r: Option<Self>)
        ensures
            r is Some <==> is_abs(path@),
            r matches Some(p) ==> p.text() == path@,
    {
        if is_abs_text(path.as_str()) {
            Some(AbsPathBuf { path })
        } else {
            None
        }
    }

    /// Join a path component onto this absolute path.
    ///
    /// The result is always absolute: if `tail` is absolute it replaces
    /// `self`; otherwise it is appended.
    pub fn join(&self, tail: &str) -> (r: AbsPathBuf)
        ensures
            r.text() == joined(self.text(), tail@),
            is_abs(r.text()),
    {
        proof {
            use_type_invariant(self);
            lemma_join_abs(self.path@, tail@);
        }
        AbsPathBuf { path: join_text(self.path.as_str(), tail) }
    }

    /// Whether this path ends with the components of `child`.
    pub fn ends_with(&self, child: &str) -> (r: bool)
        ensures
            r == ends_with_parts(self.text(), child@),
    {
        text_ends_with(self.path.as_str(), child)
    }

    /// The parent directory, if any.
    pub fn parent(&self) -> (r: Option<AbsPath<'_>>)
        ensures
            match r {
                Some(p) => parent_text(self.text()) == Some(p.text()) && is_abs(p.text()),
                None => parent_text(self.text()) is None,
            },
    {
        self.as_abs_path().parent()
    }

    /// Tests whether this path points to a directory.
    pub fn is_dir(&self) -> bool {
        fs_is_dir(self.path.as_str())
    }

    /// Borrow as an [`AbsPath`].
    pub fn as_abs_path(&self) -> (r: AbsPath<'_>)
        ensures
            r.text() == self.text(),
    {
        proof {
            use_type_invariant(self);
        }
        AbsPath { path: self.path.as_str() }
    }

    /// Consume and return the path text.
    pub fn into_path_buf(self) -> (r: String)
        ensures
            r@ == self.text(),
    {
        self.path
    }
}

/// A borrowed path that is guaranteed to be relative.
#[derive(Clone, Copy, Debug)]
pub struct RelPath<'a> {
    path: &'a str,
}

impl<'a> RelPath<'a> {
    #[verifier::type_invariant]
    spec fn inv(self) -> bool {
        !is_abs(self.path@)
    }

    /// The path text.
    pub closed spec fn text(self) -> Seq<char> {
        self.path@
    }


    /// Wrap `path` if it is relative, otherwise return `None`.
    pub fn new(path: &'a str) -> (r: Option<Self>)
        ensures
            r is Some <==> !is_abs(path@),
            r matches Some(p) ==> p.text() == path@,
    {
        if is_abs_text(path) {
            None
        } else {
            Some(RelPath { path })
        }
    }

    /// Append another path segment (an absolute `tail` replaces `self`).
    pub fn join(&self, tail: &str) -> (r: String)
        ensures
            r@ == joined(self.text(), tail@),
    {
        join_text(self.path, tail)
    }

    /// The final component of this path, when it is a plain name.
    pub fn file_name(&self) -> (r: Option<String>)
        ensures
            match r {
                Some(n) => file_name_of(self.text()) == Some(n@),
                None => file_name_of(self.text()) is None,
            },
    {
        crate::fsplan::file_name(self.path)
    }

    /// The components of this path.
    pub fn components(&self) -> (r: Vec<Component>)
        ensures
            r@.map_values(|c: Component| c@) == parts(self.text()),
    {
        components_of(self.path)
    }

    /// Yield the underlying path text.
    pub fn as_path(&self) -> (r: &'a str)
        ensures
            r@ == self.text(),
    {
        self.path
    }

    /// Convert to an owned [`RelPathBuf`].
    pub fn to_rel_path_buf(&self) -> (r: RelPathBuf)
        ensures
            r.text() == self.text(),
    {
        proof {
            use_type_invariant(self);
        }
        RelPathBuf { path: self.path.to_string() }
    }
}

/// An owned path that is guaranteed to be relative.
#[derive(Debug)]
pub struct RelPathBuf {
    path: String,
}

impl Clone for RelPathBuf {
    fn clone(&self) -> (r: Self)
        ensures
            r.text() == self.text(),
    {
        proof {
            use_type_invariant(self);
        }
        RelPathBuf { path: self.path.clone() }
    }
}

impl RelPathBuf {
    #[verifier::type_invariant]
    spec fn inv(self) -> bool {
        !is_abs(self.path@)
    }

    /// The path text.
    pub closed spec fn text(self) -> Seq<char> {
        self.path@
    }

    /// Wrap `path` if it is relative, otherwise return `None`.
    pub fn new(path: String) -> (r: Option<Self>)
        ensures
            r is Some <==> !is_abs(path@),
            r matches Some(p) ==> p.text() == path@,
    {
        if is_abs_text(path.as_str()) {
            None
        } else {
            Some(RelPathBuf { path })
        }
    }

    /// Borrow as a [`RelPath`].
    pub fn as_rel_path(&self) -> (r: RelPath<'_>)
        ensures
            r.text() == self.text(),
    {
        proof {
            use_type_invariant(self);
        }
        RelPath { path: self.path.as_str() }
    }

    /// Consume and return the path text.
    pub fn into_path_buf(self) -> (r: String)
        ensures
            r@ == self.text(),
    {
        self.path
    }
}

proof fn lemma_scan_bounded(t: Seq<char>, k: nat)
    requires
        k <= t.len(),
    ensures
        0 <= scan(t, k).1 <= k,
        forall|i: int| 0 <= i < scan(t, k).0.len() ==> 1 <= #[trigger] scan(t, k).0[i].1 <= t.len(),
        is_abs(t) ==> scan(t, k).0.len() >= 1 && scan(t, k).0[0] == (Part::Root, 1int),
    decreases k,
{
    if k > 0 {
        lemma_scan_bounded(t, (k - 1) as nat);
    }
}

} // verus!
