//! Path-like entry names: splitting into components, the file-name component,
//! and the extension after the last dot.

use vstd::prelude::*;
use vstd::string::StrSliceExecFns;
use vstd::string::StringExecFns;

verus! {

/// The pieces of `s` between occurrences of the separator `d`, in order.
/// A string with no separator is one piece; each separator starts a new piece.
pub open spec fn split_on(s: Seq<char>, d: char) -> Seq<Seq<char>>
    decreases s.len(),
{
    if s.len() == 0 {
        seq![Seq::<char>::empty()]
    } else if s[0] == d {
        seq![Seq::<char>::empty()] + split_on(s.drop_first(), d)
    } else {
        let r = split_on(s.drop_first(), d);
        seq![seq![s[0]] + r[0]] + r.skip(1)
    }
}

pub proof fn lemma_split_on_len(s: Seq<char>, d: char)
    ensures
        split_on(s, d).len() >= 1,
    decreases s.len(),
{
    if s.len() == 0 {
    } else if s[0] == d {
        lemma_split_on_len(s.drop_first(), d);
    } else {
        lemma_split_on_len(s.drop_first(), d);
    }
}

/// The last component of `cs` that is neither empty nor the single dot,
/// if there is one.
pub open spec fn last_real_component(cs: Seq<Seq<char>>) -> Option<Seq<char>>
    decreases cs.len(),
{
    if cs.len() == 0 {
        None
    } else {
        let l = cs.last();
        if l.len() > 0 && l != seq!['.'] {
            Some(l)
        } else {
            last_real_component(cs.drop_last())
        }
    }
}

/// The file-name component of a path: the last component once empty pieces
/// and current-directory dots are ignored; a path whose last meaningful
/// component is the parent-directory marker has none.
pub open spec fn path_file_name(p: Seq<char>) -> Option<Seq<char>> {
    match last_real_component(split_on(p, '/')) {
        Some(c) => if c == seq!['.', '.'] {
            None
        } else {
            Some(c)
        },
        None => None,
    }
}

/// The extension of a file name: what follows the last dot, provided that
/// dot is not the leading character. A name ending in a dot has the empty
/// extension; a name whose only dot leads it has none.
pub open spec fn ext_of(n: Seq<char>) -> Option<Seq<char>>
    decreases n.len(),
{
    if n.len() == 0 {
        None
    } else if n.last() == '.' {
        if n.len() >= 2 {
            Some(Seq::<char>::empty())
        } else {
            None
        }
    } else {
        match ext_of(n.drop_last()) {
            Some(e) => Some(e.push(n.last())),
            None => None,
        }
    }
}

/// The extension of a path is the extension of its file-name component.
pub open spec fn path_ext(p: Seq<char>) -> Option<Seq<char>> {
    match path_file_name(p) {
        Some(n) => ext_of(n),
        None => None,
    }
}

pub proof fn lemma_ext_of_last_dot(n: Seq<char>, j: int)
    requires
        1 <= j < n.len(),
        n[j] == '.',
        forall|k: int| j < k < n.len() ==> n[k] != '.',
    ensures
        ext_of(n) == Some(n.skip(j + 1)),
    decreases n.len(),
{
    if j == n.len() - 1 {
        assert(n.last() == '.');
        assert(n.skip(j + 1) =~= Seq::<char>::empty());
    } else {
        assert(n.last() != '.');
        lemma_ext_of_last_dot(n.drop_last(), j);
        assert(n.drop_last().skip(j + 1).push(n.last()) =~= n.skip(j + 1));
    }
}

pub proof fn lemma_ext_of_no_dot(n: Seq<char>)
    requires
        forall|k: int| 1 <= k < n.len() ==> n[k] != '.',
    ensures
        ext_of(n) is None,
    decreases n.len(),
{
    if n.len() == 0 {
    } else if n.len() == 1 {
        if n.last() == '.' {
        } else {
            lemma_ext_of_no_dot(n.drop_last());
        }
    } else {
        assert(n.last() != '.');
        lemma_ext_of_no_dot(n.drop_last());
    }
}

/// Splits a string at every occurrence of `d`.
pub fn split_str(s: &str, d: char) -> (r: Vec<String>)
    ensures
        r@.map_values(|t: String| t@) == split_on(s@, d),
{
    let n = s.unicode_len();
    let mut out: Vec<String> = Vec::new();
    let mut cur: String = String::new();
    let mut i: usize = 0;
    proof {
        assert(s@.skip(0) =~= s@);
        lemma_split_on_len(s@, d);
        let r0 = split_on(s@, d);
        assert(cur@ + r0[0] =~= r0[0]);
        assert(out@.map_values(|t: String| t@) =~= Seq::<Seq<char>>::empty());
        assert(Seq::<Seq<char>>::empty() + seq![r0[0]] + r0.skip(1) =~= r0);
    }
    while i < n
        invariant
            n == s@.len(),
            i <= n,
            split_on(s@, d) == out@.map_values(|t: String| t@) + seq![
                cur@ + split_on(s@.skip(i as int), d)[0],
            ] + split_on(s@.skip(i as int), d).skip(1),
        decreases n - i,
    {
        let ghost rest = split_on(s@.skip(i as int), d);
        let ghost next = split_on(s@.skip(i + 1), d);
        let ghost out_views = out@.map_values(|t: String| t@);
        let ghost cur_view = cur@;
        proof {
            assert(s@.skip(i as int).len() > 0);
            assert(s@.skip(i as int)[0] == s@[i as int]);
            assert(s@.skip(i as int).drop_first() =~= s@.skip(i + 1));
            lemma_split_on_len(s@.skip(i + 1), d);
        }
        let c = s.get_char(i);
        if c == d {
            proof {
                assert(rest == seq![Seq::<char>::empty()] + next);
                assert(rest[0] == Seq::<char>::empty());
                assert(rest.skip(1) =~= next);
                assert(next =~= seq![next[0]] + next.skip(1));
                assert(cur_view + rest[0] =~= cur_view);
            }
            out.push(cur);
            cur = String::new();
            proof {
                assert(out@.map_values(|t: String| t@) =~= out_views.push(cur_view));
                assert(cur@ =~= Seq::<char>::empty());
                assert(cur@ + next[0] =~= next[0]);
                assert(out_views.push(cur_view) + seq![next[0]] + next.skip(1) =~= out_views
                    + seq![cur_view + rest[0]] + rest.skip(1));
            }
        } else {
            crate::text::push_char(&mut cur, c);
            proof {
                assert(rest == seq![seq![s@[i as int]] + next[0]] + next.skip(1));
                assert(rest[0] == seq![s@[i as int]] + next[0]);
                assert(rest.skip(1) =~= next.skip(1));
                assert(cur@ + next[0] =~= cur_view + rest[0]);
                assert(out_views + seq![cur@ + next[0]] + next.skip(1) =~= out_views + seq![
                    cur_view + rest[0],
                ] + rest.skip(1));
            }
        }
        i = i + 1;
    }
    let ghost out_views = out@.map_values(|t: String| t@);
    let ghost cur_view = cur@;
    proof {
        assert(s@.skip(n as int) =~= Seq::<char>::empty());
        let rest = split_on(s@.skip(n as int), d);
        assert(rest == seq![Seq::<char>::empty()]);
        assert(cur_view + rest[0] =~= cur_view);
        assert(rest.skip(1) =~= Seq::<Seq<char>>::empty());
        assert(out_views + seq![cur_view + rest[0]] + rest.skip(1) =~= out_views.push(cur_view));
    }
    out.push(cur);
    proof {
        assert(out@.map_values(|t: String| t@) =~= out_views.push(cur_view));
    }
    out
}

fn str_eq_dot(s: &str) -> (r: bool)
    ensures
        r == (s@ == seq!['.']),
{
    let n = s.unicode_len();
    if n != 1 {
        proof {
            assert(seq!['.'].len() == 1);
        }
        false
    } else {
        let c = s.get_char(0);
        proof {
            if c == '.' {
                assert(s@ =~= seq!['.']);
            } else {
                assert(s@[0] != seq!['.'][0]);
            }
        }
        c == '.'
    }
}

fn str_eq_dotdot(s: &str) -> (r: bool)
    ensures
        r == (s@ == seq!['.', '.']),
{
    let n = s.unicode_len();
    if n != 2 {
        proof {
            assert(seq!['.', '.'].len() == 2);
        }
        false
    } else {
        let c0 = s.get_char(0);
        let c1 = s.get_char(1);
        proof {
            if c0 == '.' && c1 == '.' {
                assert(s@ =~= seq!['.', '.']);
            } else {
                assert(seq!['.', '.'][0] == '.' && seq!['.', '.'][1] == '.');
            }
        }
        c0 == '.' && c1 == '.'
    }
}

/// The file-name component of a path, or nothing where the path has none.
pub fn path_file_name_exec(p: &str) -> (r: Option<String>)
    ensures
        match r {
            Some(s) => path_file_name(p@) == Some(s@),
            None => path_file_name(p@) is None,
        },
{
    let comps = split_str(p, '/');
    let ghost cs = split_on(p@, '/');
    let mut j: usize = comps.len();
    proof {
        assert(cs.take(j as int) =~= cs);
    }
    while j > 0
        invariant
            cs == split_on(p@, '/'),
            comps@.map_values(|t: String| t@) == cs,
            j <= comps@.len(),
            last_real_component(cs) == last_real_component(cs.take(j as int)),
        decreases j,
    {
        let c = &comps[j - 1];
        let empty = c.as_str().unicode_len() == 0;
        let dot = str_eq_dot(c.as_str());
        proof {
            assert(cs.take(j as int).last() == c@);
            assert(cs.take(j as int).drop_last() =~= cs.take(j - 1));
        }
        if !empty && !dot {
            proof {
                assert(last_real_component(cs.take(j as int)) == Some(c@));
                assert(last_real_component(split_on(p@, '/')) == Some(c@));
            }
            if str_eq_dotdot(c.as_str()) {
                proof {
                    assert(c@ == seq!['.', '.']);
                    assert(path_file_name(p@) is None);
                }
                return None;
            } else {
                let ghost cv = c@;
                let r = comps[j - 1].clone();
                proof {
                    assert(r@ == cv);
                    assert(path_file_name(p@) == Some(cv));
                }
                return Some(r);
            }
        }
        j = j - 1;
    }
    proof {
        assert(cs.take(0) =~= Seq::<Seq<char>>::empty());
    }
    None
}

/// The extension of a file name, or nothing where it has none.
pub fn ext_of_exec(n: &str) -> (r: Option<String>)
    ensures
        match r {
            Some(e) => ext_of(n@) == Some(e@),
            None => ext_of(n@) is None,
        },
{
    let m = n.unicode_len();
    let mut j: usize = m;
    while j > 0
        invariant
            m == n@.len(),
            j <= m,
            forall|k: int| j <= k < m ==> n@[k] != '.',
        decreases j,
    {
        if n.get_char(j - 1) == '.' {
            if j - 1 >= 1 {
                let e = n.substring_char(j, m);
                proof {
                    lemma_ext_of_last_dot(n@, j - 1);
                    assert(n@.skip(j as int) =~= n@.subrange(j as int, m as int));
                }
                return Some(String::from_str(e));
            } else {
                proof {
                    lemma_ext_of_no_dot(n@);
                }
                return None;
            }
        }
        j = j - 1;
    }
    proof {
        lemma_ext_of_no_dot(n@);
    }
    None
}

/// The extension of a path's file-name component, or nothing where it has none.
pub fn path_ext_exec(p: &str) -> (r: Option<String>)
    ensures
        match r {
            Some(e) => path_ext(p@) == Some(e@),
            None => path_ext(p@) is None,
        },
{
    match path_file_name_exec(p) {
        Some(n) => ext_of_exec(n.as_str()),
        None => None,
    }
}

} // verus!
