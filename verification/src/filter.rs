//! The extension filter: a comma-separated list of extensions, each trimmed,
//! stripped of leading dots, folded to lower case, with empties dropped.

use vstd::prelude::*;
use vstd::string::StrSliceExecFns;
use crate::text::{is_ws, is_ws_exec, lower_of};
use crate::pathname::{split_on, split_str};

verus! {

/// `s` without its leading white space.
pub open spec fn trim_start(s: Seq<char>) -> Seq<char>
    decreases s.len(),
{
    if s.len() > 0 && is_ws(s[0]) {
        trim_start(s.drop_first())
    } else {
        s
    }
}

/// `s` without its trailing white space.
pub open spec fn trim_end(s: Seq<char>) -> Seq<char>
    decreases s.len(),
{
    if s.len() > 0 && is_ws(s.last()) {
        trim_end(s.drop_last())
    } else {
        s
    }
}

/// `s` without its leading dots.
pub open spec fn strip_dots(s: Seq<char>) -> Seq<char>
    decreases s.len(),
{
    if s.len() > 0 && s[0] == '.' {
        strip_dots(s.drop_first())
    } else {
        s
    }
}

/// One filter entry as typed, brought to its stored form: trimmed at both
/// ends, leading dots removed, folded to lower case.
pub open spec fn normalize_token(s: Seq<char>) -> Seq<char> {
    lower_of(strip_dots(trim_end(trim_start(s))))
}

/// The normalized forms of all tokens, with empty results dropped.
pub open spec fn normalize_all(ts: Seq<Seq<char>>) -> Seq<Seq<char>>
    decreases ts.len(),
{
    if ts.len() == 0 {
        Seq::<Seq<char>>::empty()
    } else {
        let rest = normalize_all(ts.drop_last());
        let t = normalize_token(ts.last());
        if t.len() > 0 {
            rest.push(t)
        } else {
            rest
        }
    }
}

/// The filter set read from the text field: split on commas, each piece
/// normalized, empties dropped. An empty result means "match everything".
pub open spec fn parse_filter(s: Seq<char>) -> Seq<Seq<char>> {
    normalize_all(split_on(s, ','))
}

/// Whether an entry with extension `ext` (if any) passes the filter `f`:
/// everything passes an empty filter; otherwise the extension, folded to
/// lower case, must be one of the filter's entries.
pub open spec fn filter_matches(f: Seq<Seq<char>>, ext: Option<Seq<char>>) -> bool {
    if f.len() == 0 {
        true
    } else {
        match ext {
            Some(e) => f.contains(lower_of(e)),
            None => false,
        }
    }
}

/// The views of a vector of strings.
pub open spec fn str_views(v: Seq<String>) -> Seq<Seq<char>> {
    v.map_values(|s: String| s@)
}

/// Normalizes one filter token.
pub fn normalize_token_exec(s: &str) -> (r: String)
    ensures
        r@ == normalize_token(s@),
{
    let n = s.unicode_len();
    let mut a: usize = 0;
    proof {
        assert(s@.skip(0) =~= s@);
    }
    while a < n && is_ws_exec(s.get_char(a))
        invariant
            n == s@.len(),
            a <= n,
            trim_start(s@) == trim_start(s@.skip(a as int)),
        decreases n - a,
    {
        proof {
            assert(s@.skip(a as int)[0] == s@[a as int]);
            assert(s@.skip(a as int).drop_first() =~= s@.skip(a + 1));
        }
        a = a + 1;
    }
    proof {
        assert(s@.skip(a as int).len() > 0 ==> s@.skip(a as int)[0] == s@[a as int]);
        assert(trim_start(s@) == s@.skip(a as int));
    }
    let mut b: usize = n;
    while b > a && is_ws_exec(s.get_char(b - 1))
        invariant
            n == s@.len(),
            a <= b <= n,
            trim_start(s@) == s@.skip(a as int),
            trim_end(s@.skip(a as int)) == trim_end(s@.subrange(a as int, b as int)),
        decreases b,
    {
        proof {
            assert(s@.subrange(a as int, b as int).last() == s@[b - 1]);
            assert(s@.subrange(a as int, b as int).drop_last() =~= s@.subrange(a as int, b - 1));
        }
        b = b - 1;
    }
    proof {
        assert(s@.skip(a as int) =~= s@.subrange(a as int, n as int));
        assert(s@.subrange(a as int, b as int).len() > 0 ==> s@.subrange(a as int, b as int).last()
            == s@[b - 1]);
        assert(trim_end(s@.skip(a as int)) == s@.subrange(a as int, b as int));
    }
    let mut c: usize = a;
    while c < b && s.get_char(c) == '.'
        invariant
            n == s@.len(),
            a <= c <= b <= n,
            trim_end(trim_start(s@)) == s@.subrange(a as int, b as int),
            strip_dots(s@.subrange(a as int, b as int)) == strip_dots(
                s@.subrange(c as int, b as int),
            ),
        decreases b - c,
    {
        proof {
            assert(s@.subrange(c as int, b as int)[0] == s@[c as int]);
            assert(s@.subrange(c as int, b as int).drop_first() =~= s@.subrange(c + 1, b as int));
        }
        c = c + 1;
    }
    proof {
        assert(s@.subrange(c as int, b as int).len() > 0 ==> s@.subrange(c as int, b as int)[0]
            == s@[c as int]);
        assert(strip_dots(s@.subrange(a as int, b as int)) == s@.subrange(c as int, b as int));
    }
    let core = s.substring_char(c, b);
    crate::text::lowercase(core)
}

/// Reads the filter set out of the comma-separated text field.
pub fn parse_filter_exec(text: &str) -> (r: Vec<String>)
    ensures
        str_views(r@) == parse_filter(text@),
{
    let toks = split_str(text, ',');
    let ghost ts = split_on(text@, ',');
    let mut out: Vec<String> = Vec::new();
    let mut i: usize = 0;
    proof {
        assert(ts.take(0) =~= Seq::<Seq<char>>::empty());
        assert(str_views(out@) =~= Seq::<Seq<char>>::empty());
    }
    while i < toks.len()
        invariant
            ts == split_on(text@, ','),
            toks@.map_values(|t: String| t@) == ts,
            i <= toks@.len(),
            str_views(out@) == normalize_all(ts.take(i as int)),
        decreases toks@.len() - i,
    {
        let ghost out_views = str_views(out@);
        let t = normalize_token_exec(toks[i].as_str());
        proof {
            assert(toks@[i as int]@ == ts[i as int]);
            assert(ts.take(i + 1).drop_last() =~= ts.take(i as int));
            assert(ts.take(i + 1).last() == ts[i as int]);
        }
        if t.as_str().unicode_len() > 0 {
            let ghost tv = t@;
            out.push(t);
            proof {
                assert(str_views(out@) =~= out_views.push(tv));
            }
        }
        i = i + 1;
    }
    proof {
        assert(ts.take(toks@.len() as int) =~= ts);
    }
    out
}

/// Whether `views` holds `needle` as one of its members.
fn contains_str(v: &Vec<String>, needle: &String) -> (r: bool)
    ensures
        r == str_views(v@).contains(needle@),
{
    let mut i: usize = 0;
    while i < v.len()
        invariant
            i <= v@.len(),
            forall|k: int| 0 <= k < i ==> v@[k]@ != needle@,
        decreases v@.len() - i,
    {
        if (&v[i]).eq(needle) {
            proof {
                assert(str_views(v@)[i as int] == needle@);
            }
            return true;
        }
        i = i + 1;
    }
    proof {
        if str_views(v@).contains(needle@) {
            let k = choose|k: int| 0 <= k < str_views(v@).len() && str_views(v@)[k] == needle@;
            assert(v@[k]@ == needle@);
        }
    }
    false
}

/// Whether an entry whose extension is `ext` passes the filter `f`.
pub fn filter_matches_exec(f: &Vec<String>, ext: &Option<String>) -> (r: bool)
    ensures
        r == filter_matches(
            str_views(f@),
            match ext {
                Some(e) => Some(e@),
                None => None,
            },
        ),
{
    if f.len() == 0 {
        true
    } else {
        match ext {
            Some(e) => {
                let le = crate::text::lowercase(e.as_str());
                contains_str(f, &le)
            },
            None => false,
        }
    }
}

} // verus!
