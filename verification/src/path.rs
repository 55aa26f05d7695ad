//! A lexical model of file-system paths.
//!
//! A path is an absolute-or-relative marker together with its components in
//! order. Parsing, joining, taking the parent and resolving `.` and `..` are
//! all pure operations on that data; nothing here touches the file system.

use vstd::prelude::*;

verus! {

/// Mathematical model of a path: the absolute marker and the sequence of
/// components, each a sequence of characters.
#[verifier::ext_equal]
pub struct PathView {
    pub absolute: bool,
    pub parts: Seq<Seq<char>>,
}

/// The component `.`, which names the directory itself.
pub open spec fn dot1() -> Seq<char> {
    seq!['.']
}

/// The component `..`, which names the parent directory.
pub open spec fn dot2() -> Seq<char> {
    seq!['.', '.']
}

/// The separator-free chunk still open at the end of `s`: the characters
/// after the last `/`, or all of `s` if it has none.
pub open spec fn open_chunk(s: Seq<char>) -> Seq<char>
    decreases s.len(),
{
    if s.len() == 0 || s.last() == '/' {
        Seq::empty()
    } else {
        open_chunk(s.drop_last()).push(s.last())
    }
}

/// The nonempty chunks of `s` that a `/` has already closed, in order.
pub open spec fn closed_chunks(s: Seq<char>) -> Seq<Seq<char>>
    decreases s.len(),
{
    if s.len() == 0 {
        Seq::empty()
    } else if s.last() == '/' && open_chunk(s.drop_last()).len() > 0 {
        closed_chunks(s.drop_last()).push(open_chunk(s.drop_last()))
    } else {
        closed_chunks(s.drop_last())
    }
}

/// The nonempty `/`-separated components of `s`.
pub open spec fn spec_components(s: Seq<char>) -> Seq<Seq<char>> {
    if open_chunk(s).len() > 0 {
        closed_chunks(s).push(open_chunk(s))
    } else {
        closed_chunks(s)
    }
}

/// What parsing a path text yields: a leading `/` marks it absolute, and the
/// components are the nonempty `/`-separated chunks.
pub open spec fn spec_parse(s: Seq<char>) -> PathView {
    PathView { absolute: s.len() > 0 && s[0] == '/', parts: spec_components(s) }
}

/// One step of lexical normalization: how the already-normalized prefix
/// `acc` absorbs the next component `c`.
pub open spec fn norm_step(acc: Seq<Seq<char>>, absolute: bool, c: Seq<char>) -> Seq<Seq<char>> {
    if c == dot1() {
        acc
    } else if c == dot2() {
        if acc.len() > 0 && acc.last() != dot2() {
            acc.drop_last()
        } else if absolute {
            acc
        } else {
            acc.push(dot2())
        }
    } else {
        acc.push(c)
    }
}

/// Lexical normalization of a component sequence: `.` disappears, `..`
/// removes the component before it where there is one. In an absolute path a
/// surplus `..` disappears (the root is its own parent); in a relative path
/// it is kept, since what it names is not yet known.
pub open spec fn norm_parts(parts: Seq<Seq<char>>, absolute: bool) -> Seq<Seq<char>>
    decreases parts.len(),
{
    if parts.len() == 0 {
        Seq::empty()
    } else {
        norm_step(norm_parts(parts.drop_last(), absolute), absolute, parts.last())
    }
}

/// Lexical normalization of a whole path.
pub open spec fn norm_view(v: PathView) -> PathView {
    PathView { absolute: v.absolute, parts: norm_parts(v.parts, v.absolute) }
}

/// The parent directory: one component fewer. The root (absolute, no
/// components) and the empty relative path have none.
pub open spec fn parent_view(v: PathView) -> Option<PathView> {
    if v.parts.len() == 0 {
        None
    } else {
        Some(PathView { absolute: v.absolute, parts: v.parts.drop_last() })
    }
}

/// The path of an entry named `name` inside the directory `v`.
pub open spec fn child_view(v: PathView, name: Seq<char>) -> PathView {
    PathView { absolute: v.absolute, parts: v.parts.push(name) }
}

/// `rel` resolved against `base`: the components of `rel` appended to those
/// of `base`.
pub open spec fn join_view(base: PathView, rel: PathView) -> PathView {
    PathView { absolute: base.absolute, parts: base.parts + rel.parts }
}

/// `a` is `d` itself or a directory above it: a prefix of the same chain.
pub open spec fn is_ancestor_of(a: PathView, d: PathView) -> bool {
    &&& a.absolute == d.absolute
    &&& a.parts.len() <= d.parts.len()
    &&& a.parts == d.parts.take(a.parts.len() as int)
}

/// The text of a component sequence: the components joined by `/`.
pub open spec fn render_parts(parts: Seq<Seq<char>>) -> Seq<char>
    decreases parts.len(),
{
    if parts.len() == 0 {
        Seq::empty()
    } else if parts.len() == 1 {
        parts[0]
    } else {
        render_parts(parts.drop_last()) + seq!['/'] + parts.last()
    }
}

/// The text of a path: its components joined by `/`, with a leading `/` when
/// it is absolute.
pub open spec fn render_view(v: PathView) -> Seq<char> {
    if v.absolute {
        seq!['/'] + render_parts(v.parts)
    } else {
        render_parts(v.parts)
    }
}

/// A file-system path held as plain data: whether it is absolute, and its
/// components in order. `.` and `..` stay ordinary components until
/// [`normalize_path`] resolves them.
pub struct LexPath {
    pub absolute: bool,
    pub parts: Vec<String>,
}

impl View for LexPath {
    type V = PathView;

    open spec fn view(&self) -> PathView {
        PathView { absolute: self.absolute, parts: self.parts.deep_view() }
    }
}

impl LexPath {
    /// Splits `text` on `/`. Empty chunks are dropped; `.` and `..` are kept
    /// as components. A leading `/` marks the path absolute.
    pub fn parse(text: &str) -> (r: LexPath)
        ensures
            r@ == spec_parse(text@),
    {
        let n: usize = text.unicode_len();
        let absolute: bool = n > 0 && text.get_char(0) == '/';
        let mut parts: Vec<String> = Vec::new();
        let mut cur: String = String::new();
        let mut i: usize = 0;
        while i < n
            invariant
                n == text@.len(),
                i <= n,
                parts.deep_view() == closed_chunks(text@.subrange(0, i as int)),
                cur@ == open_chunk(text@.subrange(0, i as int)),
            decreases n - i,
        {
            proof {
                assert(text@.subrange(0, i + 1).drop_last() =~= text@.subrange(0, i as int));
                assert(text@.subrange(0, i + 1).last() == text@[i as int]);
            }
            let c: char = text.get_char(i);
            if c == '/' {
                if cur.as_str().unicode_len() > 0 {
                    let ghost prev = parts.deep_view();
                    parts.push(cur);
                    proof {
                        assert(parts.deep_view() =~= prev.push(
                            open_chunk(text@.subrange(0, i as int)),
                        ));
                    }
                    cur = String::new();
                }
            } else {
                let piece: &str = text.substring_char(i, i + 1);
                proof {
                    assert(piece@ =~= seq![text@[i as int]]);
                }
                cur.append(piece);
                proof {
                    assert(cur@ =~= open_chunk(text@.subrange(0, i + 1)));
                }
            }
            i = i + 1;
        }
        proof {
            assert(text@.subrange(0, n as int) =~= text@);
        }
        if cur.as_str().unicode_len() > 0 {
            let ghost prev = parts.deep_view();
            parts.push(cur);
            proof {
                assert(parts.deep_view() =~= prev.push(open_chunk(text@)));
            }
        }
        LexPath { absolute, parts }
    }

    /// Whether the path is absolute.
    pub fn is_absolute(&self) -> (r: bool)
        ensures
            r == self@.absolute,
    {
        self.absolute
    }

    /// How many components the path has.
    pub fn component_count(&self) -> (r: usize)
        ensures
            r == self@.parts.len(),
    {
        self.parts.len()
    }

    /// An independent copy of the path.
    pub fn duplicate(&self) -> (r: LexPath)
        ensures
            r@ == self@,
    {
        LexPath { absolute: self.absolute, parts: clone_parts(&self.parts) }
    }

    /// The parent directory, or `None` for the root and for the empty
    /// relative path.
    pub fn parent(&self) -> (r: Option<LexPath>)
        ensures
            r matches Some(q) ==> parent_view(self@) == Some(q@),
            r is None <==> parent_view(self@) is None,
    {
        if self.parts.len() == 0 {
            None
        } else {
            let mut kept = clone_parts(&self.parts);
            let _ = kept.pop();
            proof {
                assert(kept.deep_view() =~= self@.parts.drop_last());
            }
            Some(LexPath { absolute: self.absolute, parts: kept })
        }
    }

    /// The path of the entry named `name` inside this directory.
    pub fn join_name(&self, name: &str) -> (r: LexPath)
        ensures
            r@ == child_view(self@, name@),
    {
        let mut parts = clone_parts(&self.parts);
        parts.push(String::from_str(name));
        proof {
            assert(parts.deep_view() =~= self@.parts.push(name@));
        }
        LexPath { absolute: self.absolute, parts }
    }

    /// `rel` resolved against this path: the components of `rel` appended to
    /// this path's components.
    pub fn join_path(&self, rel: &LexPath) -> (r: LexPath)
        ensures
            r@ == join_view(self@, rel@),
    {
        let mut parts = clone_parts(&self.parts);
        let mut i: usize = 0;
        while i < rel.parts.len()
            invariant
                i <= rel.parts.len(),
                parts.deep_view() == self@.parts + rel@.parts.subrange(0, i as int),
            decreases rel.parts.len() - i,
        {
            let ghost prev = parts.deep_view();
            parts.push(rel.parts[i].clone());
            proof {
                assert(parts.deep_view() =~= prev.push(rel@.parts[i as int]));
                assert(prev.push(rel@.parts[i as int]) =~= self@.parts + rel@.parts.subrange(
                    0,
                    i + 1,
                ));
            }
            i = i + 1;
        }
        proof {
            assert(rel@.parts.subrange(0, rel@.parts.len() as int) =~= rel@.parts);
        }
        LexPath { absolute: self.absolute, parts }
    }

    /// Whether two paths are the same: same absolute marker, same components.
    pub fn path_eq(&self, other: &LexPath) -> (r: bool)
        ensures
            r == (self@ == other@),
    {
        if self.absolute != other.absolute {
            proof {
                assert(self@.absolute != other@.absolute);
            }
            return false;
        }
        if self.parts.len() != other.parts.len() {
            proof {
                assert(self@.parts.len() == self.parts@.len());
                assert(other@.parts.len() == other.parts@.len());
            }
            return false;
        }
        let n: usize = self.parts.len();
        let mut i: usize = 0;
        while i < n
            invariant
                n == self.parts.len(),
                self.parts.len() == other.parts.len(),
                self@.absolute == other@.absolute,
                i <= n,
                forall|j: int| 0 <= j < i ==> self@.parts[j] == other@.parts[j],
            decreases n - i,
        {
            if !(self.parts[i] == other.parts[i]) {
                proof {
                    assert(self@.parts[i as int] == self.parts@[i as int]@);
                    assert(other@.parts[i as int] == other.parts@[i as int]@);
                }
                return false;
            }
            i = i + 1;
        }
        proof {
            assert(self@.parts =~= other@.parts);
            assert(self@ =~= other@);
        }
        true
    }

    /// The path as text: components joined by `/`, with a leading `/` when
    /// the path is absolute. The empty relative path renders as the empty
    /// string, the root as `/`.
    pub fn to_text(&self) -> (r: String)
        ensures
            r@ == render_view(self@),
    {
        let mut out: String = String::new();
        if self.absolute {
            out.append("/");
            proof {
                reveal_strlit("/");
                assert(out@ =~= seq!['/']);
            }
        }
        let n: usize = self.parts.len();
        let mut i: usize = 0;
        while i < n
            invariant
                n == self.parts.len(),
                i <= n,
                out@ == render_view(
                    PathView { absolute: self@.absolute, parts: self@.parts.subrange(0, i as int) },
                ),
            decreases n - i,
        {
            proof {
                assert(self@.parts.subrange(0, i + 1).drop_last() =~= self@.parts.subrange(
                    0,
                    i as int,
                ));
                assert(self@.parts.subrange(0, i + 1).last() == self@.parts[i as int]);
            }
            if i > 0 {
                out.append("/");
                proof {
                    reveal_strlit("/");
                }
            }
            out.append(self.parts[i].as_str());
            proof {
                assert(out@ =~= render_view(
                    PathView { absolute: self@.absolute, parts: self@.parts.subrange(0, i + 1) },
                ));
            }
            i = i + 1;
        }
        proof {
            assert(self@.parts.subrange(0, n as int) =~= self@.parts);
        }
        out
    }
}

/// Resolves `.` and `..` components lexically, without consulting the file
/// system; symbolic links are not followed. In an absolute path every `..`
/// disappears; in a relative path unmatched `..` components stay in front.
pub fn normalize_path(p: &LexPath) -> (r: LexPath)
    ensures
        r@ == norm_view(p@),
{
    let dot: String = String::from_str(".");
    let dotdot: String = String::from_str("..");
    proof {
        reveal_strlit(".");
        reveal_strlit("..");
        assert(dot@ =~= dot1());
        assert(dotdot@ =~= dot2());
    }
    let mut out: Vec<String> = Vec::new();
    let n: usize = p.parts.len();
    let mut i: usize = 0;
    while i < n
        invariant
            n == p.parts.len(),
            i <= n,
            dot@ == dot1(),
            dotdot@ == dot2(),
            out.deep_view() == norm_parts(p@.parts.subrange(0, i as int), p@.absolute),
        decreases n - i,
    {
        proof {
            assert(p@.parts.subrange(0, i + 1).drop_last() =~= p@.parts.subrange(0, i as int));
            assert(p@.parts.subrange(0, i + 1).last() == p@.parts[i as int]);
        }
        let ghost prev = out.deep_view();
        if text_eq(&p.parts[i], &dot) {
            // `.` names the directory itself: nothing to do.
        } else if text_eq(&p.parts[i], &dotdot) {
            let len: usize = out.len();
            if len > 0 && !text_eq(&out[len - 1], &dotdot) {
                let _ = out.pop();
                proof {
                    assert(out.deep_view() =~= prev.drop_last());
                }
            } else if p.absolute {
                // The root is its own parent: a surplus `..` disappears.
            } else {
                out.push(dotdot.clone());
                proof {
                    assert(out.deep_view() =~= prev.push(dot2()));
                }
            }
        } else {
            out.push(p.parts[i].clone());
            proof {
                assert(out.deep_view() =~= prev.push(p@.parts[i as int]));
            }
        }
        i = i + 1;
    }
    proof {
        assert(p@.parts.subrange(0, n as int) =~= p@.parts);
    }
    LexPath { absolute: p.absolute, parts: out }
}

/// Whether two component strings hold the same characters.
fn text_eq(a: &String, b: &String) -> (r: bool)
    ensures
        r == (a@ == b@),
{
    *a == *b
}

/// An elementwise copy of a component vector.
fn clone_parts(v: &Vec<String>) -> (r: Vec<String>)
    ensures
        r.deep_view() == v.deep_view(),
        r@.len() == v@.len(),
{
    let mut r: Vec<String> = Vec::new();
    let mut i: usize = 0;
    while i < v.len()
        invariant
            i <= v.len(),
            r@.len() == i,
            r.deep_view() == v.deep_view().subrange(0, i as int),
        decreases v.len() - i,
    {
        let ghost prev = r.deep_view();
        r.push(v[i].clone());
        proof {
            assert(r.deep_view() =~= prev.push(v.deep_view()[i as int]));
            assert(prev.push(v.deep_view()[i as int]) =~= v.deep_view().subrange(0, i + 1));
        }
        i = i + 1;
    }
    proof {
        assert(v.deep_view().subrange(0, v@.len() as int) =~= v.deep_view());
    }
    r
}

/// Walking into a child component and straight back out through `..` lands
/// where the walk began: lexical normalization ignores a trailing
/// `sub`, `..` pair.
pub proof fn lemma_normalize_drops_trailing_dotdot(v: PathView, sub: Seq<char>)
    requires
        sub != dot1(),
        sub != dot2(),
    ensures
        norm_view(PathView { absolute: v.absolute, parts: v.parts + seq![sub, dot2()] })
            == norm_view(v),
{
    let extended = v.parts + seq![sub, dot2()];
    assert(extended.drop_last() =~= v.parts.push(sub));
    assert(extended.last() == dot2());
    assert(v.parts.push(sub).drop_last() =~= v.parts);
    assert(v.parts.push(sub).last() == sub);
    assert(norm_parts(v.parts.push(sub), v.absolute) == norm_parts(v.parts, v.absolute).push(sub));
    assert(norm_parts(extended, v.absolute) =~= norm_parts(v.parts, v.absolute));
    assert(norm_view(PathView { absolute: v.absolute, parts: extended }) =~= norm_view(v));
}

/// A component sequence in canonical form: no `.` anywhere, and `..` only as
/// an unbroken run at the front of a relative path, never in an absolute one.
pub open spec fn canonical_parts(parts: Seq<Seq<char>>, absolute: bool) -> bool {
    &&& forall|j: int| 0 <= j < parts.len() ==> #[trigger] parts[j] != dot1()
    &&& (absolute ==> forall|j: int| 0 <= j < parts.len() ==> #[trigger] parts[j] != dot2())
    &&& (!absolute ==> forall|j: int|
        0 < j < parts.len() && #[trigger] parts[j] == dot2() ==> parts[j - 1] == dot2())
}

/// What normalization produces is canonical.
pub proof fn lemma_normalize_canonical(parts: Seq<Seq<char>>, absolute: bool)
    ensures
        canonical_parts(norm_parts(parts, absolute), absolute),
    decreases parts.len(),
{
    if parts.len() > 0 {
        lemma_normalize_canonical(parts.drop_last(), absolute);
        let acc = norm_parts(parts.drop_last(), absolute);
        let c = parts.last();
        if c == dot2() && acc.len() > 0 && acc.last() != dot2() {
            assert(forall|j: int|
                0 <= j < acc.drop_last().len() ==> acc.drop_last()[j] == #[trigger] acc[j]);
        }
    }
}

/// A canonical component sequence is a fixed point of normalization.
pub proof fn lemma_canonical_fixed(parts: Seq<Seq<char>>, absolute: bool)
    requires
        canonical_parts(parts, absolute),
    ensures
        norm_parts(parts, absolute) == parts,
    decreases parts.len(),
{
    if parts.len() == 0 {
        assert(norm_parts(parts, absolute) =~= parts);
    } else {
        let front = parts.drop_last();
        assert(forall|j: int| 0 <= j < front.len() ==> front[j] == #[trigger] parts[j]);
        lemma_canonical_fixed(front, absolute);
        let c = parts.last();
        assert(c != dot1());
        if c == dot2() {
            assert(!absolute);
            assert(front.len() == 0 || front.last() == dot2());
        }
        assert(norm_parts(parts, absolute) =~= parts);
    }
}

/// Normalization reduces a path to canonical form: a second pass changes
/// nothing.
pub proof fn lemma_normalize_idempotent(v: PathView)
    ensures
        norm_view(norm_view(v)) == norm_view(v),
{
    lemma_normalize_canonical(v.parts, v.absolute);
    lemma_canonical_fixed(norm_parts(v.parts, v.absolute), v.absolute);
    assert(norm_view(norm_view(v)) =~= norm_view(v));
}

/// Ancestry is transitive: an ancestor of an ancestor is an ancestor.
pub proof fn lemma_ancestor_transitive(a: PathView, b: PathView, c: PathView)
    requires
        is_ancestor_of(a, b),
        is_ancestor_of(b, c),
    ensures
        is_ancestor_of(a, c),
{
    assert(c.parts.take(b.parts.len() as int).take(a.parts.len() as int) =~= c.parts.take(
        a.parts.len() as int,
    ));
}

/// What a search emits is the target name inside the directory where it was
/// found: the emitted path's parent is exactly that directory.
pub proof fn lemma_emitted_parent(d: PathView, name: Seq<char>)
    ensures
        parent_view(child_view(d, name)) == Some(d),
{
    assert(child_view(d, name).parts.drop_last() =~= d.parts);
    assert(parent_view(child_view(d, name)) matches Some(p) && p =~= d);
}

} // verus!
