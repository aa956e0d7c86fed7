//! The components of `/`-separated paths, as device links and device nodes use them.
use vstd::prelude::*;

verus! {

/// `p` without its trailing separators.
pub open spec fn strip_slashes(p: Seq<char>) -> Seq<char>
    decreases p.len(),
{
    if p.len() > 0 && p.last() == '/' {
        strip_slashes(p.drop_last())
    } else {
        p
    }
}

/// What follows the last separator of `p` (all of `p` if it has none).
pub open spec fn last_segment(p: Seq<char>) -> Seq<char>
    decreases p.len(),
{
    if p.len() == 0 || p.last() == '/' {
        Seq::empty()
    } else {
        last_segment(p.drop_last()).push(p.last())
    }
}

/// The final component of a path; trailing separators are ignored.
pub open spec fn final_component(p: Seq<char>) -> Seq<char> {
    last_segment(strip_slashes(p))
}

/// The path up to its final component.
pub open spec fn dir_part(p: Seq<char>) -> Seq<char> {
    let s = strip_slashes(p);
    s.subrange(0, s.len() - last_segment(s).len())
}

/// The path ends in a component that names a file: neither empty nor `.` nor `..`.
pub open spec fn names_file(p: Seq<char>) -> bool {
    let n = final_component(p);
    n.len() > 0 && n != seq!['.'] && n != seq!['.', '.']
}

proof fn lemma_strip_slashes(p: Seq<char>, j: int)
    requires
        0 <= j <= p.len(),
        forall|k: int| j <= k < p.len() ==> #[trigger] p[k] == '/',
        j == 0 || p[j - 1] != '/',
    ensures
        strip_slashes(p) == p.subrange(0, j),
    decreases p.len() - j,
{
    if j == p.len() {
        assert(p.subrange(0, j) =~= p);
    } else {
        let t = p.drop_last();
        assert forall|k: int| j <= k < t.len() implies #[trigger] t[k] == '/' by {
            assert(t[k] == p[k]);
        }
        if j > 0 {
            assert(t[j - 1] == p[j - 1]);
        }
        lemma_strip_slashes(t, j);
        assert(t.subrange(0, j) =~= p.subrange(0, j));
    }
}

proof fn lemma_last_segment(p: Seq<char>, i: int)
    requires
        0 <= i <= p.len(),
        forall|k: int| i <= k < p.len() ==> #[trigger] p[k] != '/',
        i == 0 || p[i - 1] == '/',
    ensures
        last_segment(p) == p.subrange(i, p.len() as int),
    decreases p.len() - i,
{
    if i == p.len() {
        assert(p.subrange(i, i) =~= Seq::<char>::empty());
    } else {
        let t = p.drop_last();
        assert forall|k: int| i <= k < t.len() implies #[trigger] t[k] != '/' by {
            assert(t[k] == p[k]);
        }
        if i > 0 {
            assert(t[i - 1] == p[i - 1]);
        }
        lemma_last_segment(t, i);
        assert(t.subrange(i, t.len() as int).push(p.last()) =~= p.subrange(i, p.len() as int));
    }
}

/// Positions `(start, end)` of the final component of `p`: it is `p[start..end]`,
/// `p[..end]` is `p` without trailing separators and `p[..start]` is the path
/// up to the final component.
pub fn final_bounds(p: &str) -> (r: (usize, usize))
    ensures
        r.0 <= r.1 <= p@.len(),
        strip_slashes(p@) == p@.subrange(0, r.1 as int),
        final_component(p@) == p@.subrange(r.0 as int, r.1 as int),
        dir_part(p@) == p@.subrange(0, r.0 as int),
{
    let n = p.unicode_len();
    let mut j: usize = n;
    while j > 0 && p.get_char(j - 1) == '/'
        invariant
            j <= n,
            n == p@.len(),
            forall|k: int| j <= k < n ==> #[trigger] p@[k] == '/',
        decreases j,
    {
        j = j - 1;
    }
    let mut i: usize = j;
    while i > 0 && p.get_char(i - 1) != '/'
        invariant
            i <= j <= n,
            n == p@.len(),
            forall|k: int| i <= k < j ==> #[trigger] p@[k] != '/',
        decreases i,
    {
        i = i - 1;
    }
    proof {
        lemma_strip_slashes(p@, j as int);
        let s = p@.subrange(0, j as int);
        assert forall|k: int| i <= k < s.len() implies #[trigger] s[k] != '/' by {
            assert(s[k] == p@[k]);
        }
        if i > 0 {
            assert(s[i - 1] == p@[i - 1]);
        }
        lemma_last_segment(s, i as int);
        assert(s.subrange(i as int, j as int) =~= p@.subrange(i as int, j as int));
        assert(s.subrange(0, i as int) =~= p@.subrange(0, i as int));
    }
    (i, j)
}

/// Whether `p` ends in a component that names a file.
pub fn path_names_file(p: &str) -> (r: bool)
    ensures
        r == names_file(p@),
{
    let (i, j) = final_bounds(p);
    let ghost c = p@.subrange(i as int, j as int);
    if i == j {
        return false;
    }
    if j - i == 1 && p.get_char(i) == '.' {
        assert(c =~= seq!['.']);
        return false;
    }
    if j - i == 2 && p.get_char(i) == '.' && p.get_char(i + 1) == '.' {
        assert(c =~= seq!['.', '.']);
        return false;
    }
    assert(c.len() != 1 || c[0] != '.');
    assert(c.len() != 2 || c[0] != '.' || c[1] != '.');
    true
}

} // verus!
