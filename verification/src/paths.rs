//! Slash-separated paths as text: their components, parents, joins and
//! prefixes, following the documented behaviour of `std::path` on Unix.

use vstd::prelude::*;
use crate::text::{chars_of, string_of, join, views, str_eq, push_char};

verus! {

/// The pieces of `s` between occurrences of `c` (`str::split`).
pub open spec fn split_on(s: Seq<char>, c: char) -> Seq<Seq<char>>
    decreases s.len(),
{
    if s.len() == 0 {
        seq![Seq::empty()]
    } else {
        let r = split_on(s.drop_last(), c);
        if s.last() == c {
            r.push(Seq::empty())
        } else {
            r.update(r.len() - 1, r.last().push(s.last()))
        }
    }
}

/// `split` gives at least one piece.
pub proof fn lemma_split_nonempty(s: Seq<char>, c: char)
    ensures
        split_on(s, c).len() > 0,
    decreases s.len(),
{
    if s.len() > 0 {
        lemma_split_nonempty(s.drop_last(), c);
    }
}

/// `str::split(c)`.
pub fn split_str(s: &str, c: char) -> (r: Vec<String>)
    ensures
        views(r@) == split_on(s@, c),
{
    let cs = chars_of(s);
    let mut done: Vec<String> = Vec::new();
    let mut cur: Vec<char> = Vec::new();
    let mut i: usize = 0;
    while i < cs.len()
        invariant
            i <= cs@.len(),
            cs@ == s@,
            views(done@).push(cur@) == split_on(cs@.take(i as int), c),
        decreases cs@.len() - i,
    {
        proof {
            lemma_split_nonempty(cs@.take(i as int), c);
            assert(cs@.take(i + 1).drop_last() =~= cs@.take(i as int));
        }
        let ghost prev = views(done@).push(cur@);
        if cs[i] == c {
            let piece = string_of(cur.as_slice());
            done.push(piece);
            cur = Vec::new();
            proof {
                assert(views(done@).push(cur@) =~= prev.push(Seq::empty()));
            }
        } else {
            cur.push(cs[i]);
            proof {
                assert(views(done@).push(cur@) =~= prev.update(prev.len() - 1, prev.last().push(cs@[i as int])));
            }
        }
        i = i + 1;
    }
    let last = string_of(cur.as_slice());
    done.push(last);
    assert(cs@.take(cs@.len() as int) =~= cs@);
    assert(views(done@) =~= split_on(s@, c));
    done
}

/// The root component.
pub open spec fn root_comp() -> Seq<char> {
    seq!['/']
}

/// Whether a path text is absolute.
pub open spec fn is_absolute(p: Seq<char>) -> bool {
    p.len() > 0 && p[0] == '/'
}

/// The pieces kept as components: non-empty, and `.` only as the first
/// piece of a relative path.
pub open spec fn kept_pieces(pieces: Seq<Seq<char>>, abs: bool) -> Seq<Seq<char>>
    decreases pieces.len(),
{
    if pieces.len() == 0 {
        Seq::empty()
    } else {
        let r = kept_pieces(pieces.drop_last(), abs);
        let x = pieces.last();
        if x.len() > 0 && (x != seq!['.'] || (pieces.len() == 1 && !abs)) {
            r.push(x)
        } else {
            r
        }
    }
}

/// The components of a path (`Path::components`): the root, if absolute,
/// then the non-empty pieces between separators, `.` being kept only at the
/// start of a relative path.
pub open spec fn components(p: Seq<char>) -> Seq<Seq<char>> {
    (if is_absolute(p) { seq![root_comp()] } else { Seq::empty() }) + kept_pieces(
        split_on(p, '/'),
        is_absolute(p),
    )
}

/// Path text of a component list.
pub open spec fn render(c: Seq<Seq<char>>) -> Seq<char> {
    if c.len() > 0 && c[0] == root_comp() {
        root_comp() + join(c.drop_first(), seq!['/'])
    } else {
        join(c, seq!['/'])
    }
}

/// Components of the parent of a path with components `c`, if it has one
/// (`Path::parent`).
pub open spec fn parent_comps(c: Seq<Seq<char>>) -> Option<Seq<Seq<char>>> {
    if c.len() == 0 || c.last() == root_comp() {
        None
    } else {
        Some(c.drop_last())
    }
}

/// `Path::join`: an absolute `rel` replaces `base`; otherwise a separator
/// is put between them unless `base` is empty or already ends with one.
pub open spec fn join_path(base: Seq<char>, rel: Seq<char>) -> Seq<char> {
    if is_absolute(rel) {
        rel
    } else if base.len() > 0 && base.last() != '/' {
        base + seq!['/'] + rel
    } else {
        base + rel
    }
}

/// `Path::starts_with`: the components of `base` begin those of `p`.
pub open spec fn path_starts_with(p: Seq<char>, base: Seq<char>) -> bool {
    let a = components(p);
    let b = components(base);
    b.len() <= a.len() && a.take(b.len() as int) == b
}

/// The components of a path.
pub fn path_components(p: &str) -> (r: Vec<String>)
    ensures
        views(r@) == components(p@),
{
    let pieces = split_str(p, '/');
    let cs = chars_of(p);
    let abs = cs.len() > 0 && cs[0] == '/';
    assert(abs == is_absolute(p@));
    let mut r: Vec<String> = Vec::new();
    if abs {
        let mut root = String::new();
        push_char(&mut root, '/');
        r.push(root);
    }
    let ghost head = views(r@);
    assert(head == (if is_absolute(p@) { seq![root_comp()] } else { Seq::<Seq<char>>::empty() }));
    let mut i: usize = 0;
    while i < pieces.len()
        invariant
            i <= pieces@.len(),
            views(pieces@) == split_on(p@, '/'),
            abs == is_absolute(p@),
            views(r@) == head + kept_pieces(views(pieces@).take(i as int), abs),
        decreases pieces@.len() - i,
    {
        let piece = &pieces[i];
        let pc = chars_of(piece.as_str());
        let is_dot = pc.len() == 1 && pc[0] == '.';
        proof {
            assert(views(pieces@).take(i + 1).drop_last() =~= views(pieces@).take(i as int));
            assert(views(pieces@).take(i + 1).last() == piece@);
            assert(is_dot == (piece@ == seq!['.'])) by {
                if piece@ == seq!['.'] {
                    assert(pc@.len() == 1 && pc@[0] == '.');
                }
                if is_dot {
                    assert(piece@ =~= seq!['.']);
                }
            }
        }
        let ghost before = views(r@);
        if pc.len() > 0 && (!is_dot || (i == 0 && !abs)) {
            r.push(piece.clone());
            proof {
                assert(views(r@) =~= before.push(piece@));
            }
        }
        i = i + 1;
    }
    assert(views(pieces@).take(pieces@.len() as int) =~= views(pieces@));
    r
}

/// The text of a component list.
pub fn render_components(c: &Vec<String>) -> (r: String)
    ensures
        r@ == render(views(c@)),
{
    if c.len() > 0 && str_eq(c[0].as_str(), "/") {
        proof {
            reveal_strlit("/");
        }
        let mut r = String::new();
        push_char(&mut r, '/');
        let mut rest: Vec<String> = Vec::new();
        let mut i: usize = 1;
        while i < c.len()
            invariant
                1 <= i <= c@.len(),
                views(rest@) == views(c@).subrange(1, i as int),
            decreases c@.len() - i,
        {
            let ghost before = views(rest@);
            rest.push(c[i].clone());
            proof {
                assert(views(rest@) =~= before.push(c@[i as int]@));
                assert(views(c@)[i as int] == c@[i as int]@);
                assert(views(rest@) =~= views(c@).subrange(1, i + 1));
            }
            i = i + 1;
        }
        assert(views(rest@) =~= views(c@).drop_first());
        assert(views(c@)[0] == c@[0]@);
        let ghost r0 = r@;
        crate::text::push_joined(&mut r, &rest, "/");
        proof {
            reveal_strlit("/");
            assert(r0 == seq!['/']);
            assert(views(c@)[0] == root_comp());
            assert(r@ == r0 + join(views(rest@), seq!['/']));
        }
        assert(r@ =~= render(views(c@)));
        r
    } else {
        proof {
            reveal_strlit("/");
            if c@.len() > 0 {
                assert(views(c@)[0] == c@[0]@);
            }
        }
        let mut r = String::new();
        let ghost r0 = r@;
        crate::text::push_joined(&mut r, c, "/");
        proof {
            reveal_strlit("/");
            assert(r0 == Seq::<char>::empty());
            assert(r@ == r0 + join(views(c@), "/"@));
            assert("/"@ == seq!['/']);
            assert(r@ == r0 + join(views(c@), seq!['/']));
            assert(!(views(c@).len() > 0 && views(c@)[0] == root_comp()));
        }
        assert(r@ =~= render(views(c@)));
        r
    }
}

/// `Path::join`.
pub fn join_paths(base: &str, rel: &str) -> (r: String)
    ensures
        r@ == join_path(base@, rel@),
{
    let b = chars_of(base);
    let rc = chars_of(rel);
    if rc.len() > 0 && rc[0] == '/' {
        return crate::text::copy_str(rel);
    }
    let mut r = String::new();
    r.append(base);
    if b.len() > 0 && b[b.len() - 1] != '/' {
        push_char(&mut r, '/');
    }
    r.append(rel);
    r
}

/// Whether two component lists are equal.
pub fn same_components(a: &Vec<String>, b: &Vec<String>) -> (r: bool)
    ensures
        r == (views(a@) == views(b@)),
{
    if a.len() != b.len() {
        assert(views(a@).len() != views(b@).len());
        return false;
    }
    let mut i: usize = 0;
    while i < a.len()
        invariant
            a@.len() == b@.len(),
            i <= a@.len(),
            forall|j: int| 0 <= j < i ==> a@[j]@ == b@[j]@,
        decreases a@.len() - i,
    {
        if !str_eq(a[i].as_str(), b[i].as_str()) {
            assert(views(a@)[i as int] != views(b@)[i as int]);
            return false;
        }
        i = i + 1;
    }
    assert(views(a@) =~= views(b@));
    true
}

/// `Path::starts_with`.
pub fn starts_with_path(p: &str, base: &str) -> (r: bool)
    ensures
        r == path_starts_with(p@, base@),
{
    let a = path_components(p);
    let b = path_components(base);
    if b.len() > a.len() {
        assert(views(b@).len() > views(a@).len());
        return false;
    }
    let mut i: usize = 0;
    while i < b.len()
        invariant
            b@.len() <= a@.len(),
            i <= b@.len(),
            views(a@) == components(p@),
            views(b@) == components(base@),
            forall|j: int| 0 <= j < i ==> a@[j]@ == b@[j]@,
        decreases b@.len() - i,
    {
        if !str_eq(a[i].as_str(), b[i].as_str()) {
            assert(views(a@).take(views(b@).len() as int)[i as int] != views(b@)[i as int]);
            assert(views(a@).take(views(b@).len() as int) != views(b@));
            return false;
        }
        i = i + 1;
    }
    assert(views(a@).take(views(b@).len() as int) =~= views(b@));
    true
}

} // verus!
