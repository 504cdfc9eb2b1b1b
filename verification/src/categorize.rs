//! The figures of an analysis report: the bucket of each error message,
//! the names that errors report as undefined, and how often each name or
//! bucket occurs, largest count first.

use vstd::prelude::*;
use crate::text::{contains_sub, str_contains, copy_str, chars_of, string_of, sub_chars, starts_with_chars, has_prefix,
    first_index_of, find_char, str_eq};

verus! {

/// The bucket of an error message: the first phrase, in a fixed order,
/// that the message contains decides it.
pub open spec fn error_bucket(msg: Seq<char>) -> Seq<char> {
    if contains_sub(msg, "undefined type"@) {
        "undefined type"@
    } else if contains_sub(msg, "undefined predicate"@) {
        "undefined predicate"@
    } else if contains_sub(msg, "undefined variable"@) {
        "undefined variable"@
    } else if contains_sub(msg, "undefined module"@) {
        "undefined module"@
    } else if contains_sub(msg, "`this` used outside"@) {
        "`this` outside class"@
    } else if contains_sub(msg, "`result` used outside"@) {
        "`result` outside predicate"@
    } else if contains_sub(msg, "cannot compare"@) {
        "type mismatch"@
    } else if contains_sub(msg, "module-qualified"@) {
        "module-qualified access"@
    } else if contains_sub(msg, "not defined for"@) {
        "operator type error"@
    } else {
        "other"@
    }
}

/// The bucket of an error message (`error_bucket`).
pub fn categorize_error(msg: &str) -> (r: String)
    ensures
        r@ == error_bucket(msg@),
{
    if str_contains(msg, "undefined type") {
        copy_str("undefined type")
    } else if str_contains(msg, "undefined predicate") {
        copy_str("undefined predicate")
    } else if str_contains(msg, "undefined variable") {
        copy_str("undefined variable")
    } else if str_contains(msg, "undefined module") {
        copy_str("undefined module")
    } else if str_contains(msg, "`this` used outside") {
        copy_str("`this` outside class")
    } else if str_contains(msg, "`result` used outside") {
        copy_str("`result` outside predicate")
    } else if str_contains(msg, "cannot compare") {
        copy_str("type mismatch")
    } else if str_contains(msg, "module-qualified") {
        copy_str("module-qualified access")
    } else if str_contains(msg, "not defined for") {
        copy_str("operator type error")
    } else {
        copy_str("other")
    }
}


/// What an error names as undefined.
#[derive(Clone, Copy, Debug, PartialEq, Eq, Structural)]
pub enum UndefinedKind {
    Type,
    Variable,
    Predicate,
}

/// `s` without one trailing backquote, if it ends with one
/// (`str::strip_suffix`).
pub open spec fn strip_tick(s: Seq<char>) -> Option<Seq<char>> {
    if s.len() > 0 && s.last() == '`' { Some(s.drop_last()) } else { None }
}

/// The text of `s` before its first backquote, or all of it (the first
/// piece of `str::split`).
pub open spec fn before_tick(s: Seq<char>) -> Seq<char> {
    match first_index_of(s, '`') {
        Some(i) => s.take(i),
        None => s,
    }
}

/// The name an error message reports as undefined: ``undefined type `T` ``
/// and ``undefined variable `v` `` name what stands between the backquotes
/// when the message ends with one; ``undefined predicate `p`...`` names the
/// text up to the next backquote.
pub open spec fn undefined_name_of(msg: Seq<char>) -> Option<(UndefinedKind, Seq<char>)> {
    if has_prefix(msg, "undefined type `"@) {
        match strip_tick(msg.skip(16)) {
            Some(n) => Some((UndefinedKind::Type, n)),
            None => None,
        }
    } else if has_prefix(msg, "undefined variable `"@) {
        match strip_tick(msg.skip(20)) {
            Some(n) => Some((UndefinedKind::Variable, n)),
            None => None,
        }
    } else if has_prefix(msg, "undefined predicate `"@) {
        Some((UndefinedKind::Predicate, before_tick(msg.skip(21))))
    } else {
        None
    }
}

/// The name an error message reports as undefined, and what it names
/// (`undefined_name_of`).
pub fn undefined_name(msg: &str) -> (r: Option<(UndefinedKind, String)>)
    ensures
        match r {
            Some((k, n)) => undefined_name_of(msg@) == Some((k, n@)),
            None => undefined_name_of(msg@) is None,
        },
{
    let cs = chars_of(msg);
    let t = chars_of("undefined type `");
    let v = chars_of("undefined variable `");
    let p = chars_of("undefined predicate `");
    proof {
        reveal_strlit("undefined type `");
        reveal_strlit("undefined variable `");
        reveal_strlit("undefined predicate `");
    }
    let n = cs.len();
    if starts_with_chars(cs.as_slice(), t.as_slice()) {
        if n > 16 && cs[n - 1] == '`' {
            let name = sub_chars(cs.as_slice(), 16, n - 1);
            proof {
                assert(cs@.skip(16).drop_last() =~= cs@.subrange(16, n - 1));
            }
            return Some((UndefinedKind::Type, string_of(name.as_slice())));
        }
        return None;
    }
    if starts_with_chars(cs.as_slice(), v.as_slice()) {
        if n > 20 && cs[n - 1] == '`' {
            let name = sub_chars(cs.as_slice(), 20, n - 1);
            proof {
                assert(cs@.skip(20).drop_last() =~= cs@.subrange(20, n - 1));
            }
            return Some((UndefinedKind::Variable, string_of(name.as_slice())));
        }
        return None;
    }
    if starts_with_chars(cs.as_slice(), p.as_slice()) {
        let rest = sub_chars(cs.as_slice(), 21, n);
        proof {
            assert(rest@ =~= cs@.skip(21));
        }
        let name = match find_char(rest.as_slice(), '`') {
            Some(i) => {
                let pre = sub_chars(rest.as_slice(), 0, i);
                proof {
                    assert(pre@ =~= rest@.take(i as int));
                }
                pre
            },
            None => rest,
        };
        return Some((UndefinedKind::Predicate, string_of(name.as_slice())));
    }
    None
}

/// How often `x` occurs in `items`.
pub open spec fn count_in(items: Seq<Seq<char>>, x: Seq<char>) -> nat
    decreases items.len(),
{
    if items.len() == 0 {
        0
    } else {
        count_in(items.drop_last(), x) + if items.last() == x { 1nat } else { 0nat }
    }
}

/// The names of a tally.
pub open spec fn tally_names(t: Seq<(String, usize)>) -> Seq<Seq<char>> {
    t.map_values(|e: (String, usize)| e.0@)
}

/// A tally of `items`: each name that occurs in them once, with the number
/// of its occurrences.
pub open spec fn is_tally(t: Seq<(String, usize)>, items: Seq<Seq<char>>) -> bool {
    &&& tally_names(t).no_duplicates()
    &&& forall|x: Seq<char>| #[trigger] tally_names(t).contains(x) <==> items.contains(x)
    &&& forall|i: int| 0 <= i < t.len() ==> #[trigger] t[i].1 == count_in(items, t[i].0@)
}

proof fn lemma_count_in_len(items: Seq<Seq<char>>, x: Seq<char>)
    ensures
        count_in(items, x) <= items.len(),
    decreases items.len(),
{
    if items.len() > 0 {
        lemma_count_in_len(items.drop_last(), x);
    }
}

/// The position of the entry for `x` in the tally `t`, or its length when
/// there is none.
fn find_name(t: &Vec<(String, usize)>, x: &str) -> (i: usize)
    ensures
        i <= t@.len(),
        i < t@.len() ==> t@[i as int].0@ == x@,
        forall|j: int| 0 <= j < i ==> t@[j].0@ != x@,
{
    let mut i: usize = 0;
    while i < t.len()
        invariant
            i <= t@.len(),
            forall|j: int| 0 <= j < i ==> t@[j].0@ != x@,
        decreases t@.len() - i,
    {
        if str_eq(t[i].0.as_str(), x) {
            return i;
        }
        i = i + 1;
    }
    i
}

/// Counts how often each name occurs in `items` (`is_tally`).
pub fn count_names(items: &Vec<String>) -> (r: Vec<(String, usize)>)
    ensures
        is_tally(r@, items@.map_values(|s: String| s@)),
{
    let ghost all = items@.map_values(|s: String| s@);
    let mut r: Vec<(String, usize)> = Vec::new();
    let mut k: usize = 0;
    assert(all.take(0) =~= Seq::<Seq<char>>::empty());
    assert(tally_names(r@) =~= Seq::<Seq<char>>::empty());
    while k < items.len()
        invariant
            all == items@.map_values(|s: String| s@),
            k <= items@.len(),
            is_tally(r@, all.take(k as int)),
        decreases items@.len() - k,
    {
        let x = &items[k];
        let ghost pre = all.take(k as int);
        let ghost post = all.take(k + 1);
        assert(post.drop_last() =~= pre);
        assert(post.last() == x@);
        assert(forall|y: Seq<char>| #[trigger] count_in(post, y) == count_in(pre, y) + if x@ == y { 1nat } else { 0nat });
        assert(forall|y: Seq<char>| #[trigger] post.contains(y) <==> (pre.contains(y) || y == x@)) by {
            assert forall|y: Seq<char>| #[trigger] post.contains(y) implies (pre.contains(y) || y == x@) by {
                let j = choose|j: int| 0 <= j < post.len() && post[j] == y;
                if j < k {
                    assert(pre[j] == y);
                }
            }
            assert forall|y: Seq<char>| pre.contains(y) implies #[trigger] post.contains(y) by {
                let j = choose|j: int| 0 <= j < pre.len() && pre[j] == y;
                assert(post[j] == y);
            }
            assert(post[k as int] == x@);
        }
        let ghost old_r = r@;
        let i = find_name(&r, x.as_str());
        if i < r.len() {
            let c = r[i].1;
            proof {
                lemma_count_in_len(pre, x@);
                assert(c == count_in(pre, x@));
            }
            let name = copy_str(r[i].0.as_str());
            r.set(i, (name, c + 1));
            proof {
                assert(tally_names(r@) =~= tally_names(old_r));
                assert forall|j: int| 0 <= j < r@.len() implies #[trigger] r@[j].1 == count_in(post, r@[j].0@) by {
                    if j != i {
                        assert(r@[j] == old_r[j]);
                        assert(old_r[j].0@ != x@) by {
                            assert(tally_names(old_r)[j] == old_r[j].0@);
                            assert(tally_names(old_r)[i as int] == old_r[i as int].0@);
                        }
                    }
                }
                assert forall|y: Seq<char>| #[trigger] tally_names(r@).contains(y) <==> post.contains(y) by {
                    assert(tally_names(old_r).contains(y) <==> pre.contains(y));
                    assert(post.contains(y) <==> (pre.contains(y) || y == x@));
                    if y == x@ {
                        assert(tally_names(old_r)[i as int] == x@);
                        assert(tally_names(old_r).contains(x@));
                    }
                }
            }
        } else {
            let name = copy_str(x.as_str());
            r.push((name, 1));
            proof {
                assert(tally_names(r@) =~= tally_names(old_r).push(x@));
                assert(!tally_names(old_r).contains(x@)) by {
                    if tally_names(old_r).contains(x@) {
                        let j = choose|j: int| 0 <= j < tally_names(old_r).len() && tally_names(old_r)[j] == x@;
                        assert(old_r[j].0@ == x@);
                    }
                }
                assert(!pre.contains(x@));
                assert(count_in(pre, x@) == 0) by {
                    lemma_count_in_absent(pre, x@);
                }
                assert forall|j: int| 0 <= j < r@.len() implies #[trigger] r@[j].1 == count_in(post, r@[j].0@) by {
                    if j < old_r.len() {
                        assert(r@[j] == old_r[j]);
                        assert(old_r[j].0@ != x@);
                    }
                }
                assert forall|y: Seq<char>| #[trigger] tally_names(r@).contains(y) <==> post.contains(y) by {
                    assert(tally_names(old_r).contains(y) <==> pre.contains(y));
                    assert(post.contains(y) <==> (pre.contains(y) || y == x@));
                    if y == x@ {
                        assert(tally_names(r@)[old_r.len() as int] == x@);
                    } else if tally_names(r@).contains(y) {
                        let j = choose|j: int| 0 <= j < tally_names(r@).len() && tally_names(r@)[j] == y;
                        assert(tally_names(old_r)[j] == y);
                    } else if pre.contains(y) {
                        assert(tally_names(old_r).contains(y));
                        let j = choose|j: int| 0 <= j < tally_names(old_r).len() && tally_names(old_r)[j] == y;
                        assert(tally_names(r@)[j] == y);
                    }
                }
            }
        }
        k = k + 1;
    }
    assert(all.take(k as int) =~= all);
    r
}

proof fn lemma_count_in_absent(items: Seq<Seq<char>>, x: Seq<char>)
    requires
        !items.contains(x),
    ensures
        count_in(items, x) == 0,
    decreases items.len(),
{
    if items.len() > 0 {
        let d = items.drop_last();
        assert(!d.contains(x)) by {
            if d.contains(x) {
                let j = choose|j: int| 0 <= j < d.len() && d[j] == x;
                assert(items[j] == x);
            }
        }
        lemma_count_in_absent(d, x);
        assert(items[items.len() - 1] == items.last());
    }
}

/// Counts in non-increasing order.
pub open spec fn by_count_descending(t: Seq<(String, usize)>) -> bool {
    forall|i: int, j: int| 0 <= i < j < t.len() ==> t[j].1 <= t[i].1
}

/// The entries of `t` ordered by count, largest first.
pub fn sort_by_count(t: Vec<(String, usize)>) -> (r: Vec<(String, usize)>)
    ensures
        r@.to_multiset() == t@.to_multiset(),
        by_count_descending(r@),
{
    let ghost all = t@;
    let mut rest = t;
    let mut out: Vec<(String, usize)> = Vec::new();
    let mut k: usize = 0;
    let n: usize = rest.len();
    assert(all.take(0) =~= Seq::<(String, usize)>::empty());
    while k < n
        invariant
            n == all.len(),
            k <= n,
            rest@ == all.skip(k as int),
            out@.to_multiset() == all.take(k as int).to_multiset(),
            by_count_descending(out@),
        decreases n - k,
    {
        let e = rest.remove(0);
        proof {
            assert(e == all[k as int]);
            assert(rest@ =~= all.skip(k + 1));
            assert(all.take(k + 1) =~= all.take(k as int).push(e));
        }
        let ghost before = out@;
        let ghost pre_ms = all.take(k as int).to_multiset();
        let mut p: usize = 0;
        while p < out.len() && out[p].1 >= e.1
            invariant
                out@ == before,
                before.to_multiset() == pre_ms,
                pre_ms == all.take(k as int).to_multiset(),
                all.take(k + 1) == all.take(k as int).push(e),
                by_count_descending(before),
                p <= out@.len(),
                forall|j: int| 0 <= j < p ==> out@[j].1 >= e.1,
            decreases out@.len() - p,
        {
            p = p + 1;
        }
        out.insert(p, e);
        proof {
            assert(out@ == before.insert(p as int, e));
            vstd::seq_lib::to_multiset_insert(before, p as int, e);
            vstd::seq_lib::to_multiset_build(all.take(k as int), e);
            assert forall|i: int, j: int| 0 <= i < j < out@.len() implies out@[j].1 <= out@[i].1 by {
                if j < p {
                    assert(out@[i] == before[i] && out@[j] == before[j]);
                } else if j == p {
                    assert(out@[i] == before[i]);
                } else if i < p {
                    assert(out@[i] == before[i] && out@[j] == before[j - 1]);
                    assert(before[p as int].1 < e.1);
                    assert(before[j - 1].1 <= before[p as int].1);
                } else if i == p {
                    assert(out@[j] == before[j - 1]);
                    assert(before[p as int].1 < e.1);
                    if j - 1 > p {
                        assert(before[j - 1].1 <= before[p as int].1);
                    }
                } else {
                    assert(out@[i] == before[i - 1] && out@[j] == before[j - 1]);
                }
            }
        }
        k = k + 1;
    }
    assert(all.take(k as int) =~= all);
    out
}

} // verus!
