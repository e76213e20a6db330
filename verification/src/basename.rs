//! The base name of a path string.
//!
//! The base name is the final path component. A trailing separator does
//! not count as one, and neither does a trailing component that is exactly
//! `.`: `foo/`, `foo/.` and `foo/./` all name `foo`. A path with nothing
//! nameable left -- a root such as `/`, an empty path, only `.`
//! components -- or whose final component is `..` has the empty string as
//! its base name.

use vstd::prelude::*;

verus! {

/// `s` with trailing noise removed: a '/' at the end is dropped, and so is
/// a final component that is exactly `.`.
pub open spec fn strip_trailing_noise(s: Seq<char>) -> Seq<char>
    decreases s.len(),
{
    if s.len() == 0 {
        s
    } else if s.last() == '/' {
        strip_trailing_noise(s.drop_last())
    } else if s.last() == '.' && (s.len() == 1 || s[s.len() - 2] == '/') {
        strip_trailing_noise(s.drop_last())
    } else {
        s
    }
}

/// The longest suffix of `s` that contains no '/'.
pub open spec fn suffix_after_last_slash(s: Seq<char>) -> Seq<char>
    decreases s.len(),
{
    if s.len() == 0 || s.last() == '/' {
        Seq::empty()
    } else {
        suffix_after_last_slash(s.drop_last()).push(s.last())
    }
}

/// The base name of a path: its final component once trailing separators
/// and trailing `.` components are dropped, or empty when nothing nameable
/// remains or that component is `..`.
pub open spec fn base_name_spec(path: Seq<char>) -> Seq<char> {
    let seg = suffix_after_last_slash(strip_trailing_noise(path));
    if seg == seq!['.', '.'] {
        Seq::empty()
    } else {
        seg
    }
}

/// Extracts the base name of a path.
pub fn base_name(path: &str) -> (r: String)
    ensures
        r@ == base_name_spec(path@),
{
    let n = path.unicode_len();
    let mut end: usize = n;
    proof {
        assert(path@.subrange(0, n as int) =~= path@);
    }
    while end > 0 && (path.get_char(end - 1) == '/' || (path.get_char(end - 1) == '.' && (end
        == 1 || path.get_char(end - 2) == '/')))
        invariant
            path@.len() == n,
            end <= n,
            strip_trailing_noise(path@) == strip_trailing_noise(
                path@.subrange(0, end as int),
            ),
        decreases end,
    {
        proof {
            let t = path@.subrange(0, end as int);
            assert(t.last() == path@[end - 1]);
            if end >= 2 {
                assert(t[end - 2] == path@[end - 2]);
            }
            assert(t.drop_last() =~= path@.subrange(0, end - 1));
            assert(strip_trailing_noise(t) == strip_trailing_noise(
                path@.subrange(0, end - 1),
            ));
        }
        end = end - 1;
    }
    proof {
        let t = path@.subrange(0, end as int);
        if end > 0 {
            assert(t.last() == path@[end - 1]);
            if end >= 2 {
                assert(t[end - 2] == path@[end - 2]);
            }
        }
        assert(strip_trailing_noise(t) == t);
    }
    let ghost t = path@.subrange(0, end as int);
    proof {
        assert(t.subrange(0, end as int) =~= t);
        assert(suffix_after_last_slash(t) + t.subrange(end as int, end as int)
            =~= suffix_after_last_slash(t));
    }
    let mut start: usize = end;
    while start > 0 && path.get_char(start - 1) != '/'
        invariant
            path@.len() == n,
            start <= end <= n,
            t == path@.subrange(0, end as int),
            suffix_after_last_slash(t) == suffix_after_last_slash(
                t.subrange(0, start as int),
            ) + t.subrange(start as int, end as int),
        decreases start,
    {
        proof {
            let u = t.subrange(0, start as int);
            assert(u.last() == path@[start - 1]);
            assert(u.drop_last() =~= t.subrange(0, start - 1));
            assert(suffix_after_last_slash(u) == suffix_after_last_slash(
                t.subrange(0, start - 1),
            ).push(t[start - 1]));
            assert(suffix_after_last_slash(t.subrange(0, start - 1)) + t.subrange(
                start - 1,
                end as int,
            ) =~= suffix_after_last_slash(u) + t.subrange(start as int, end as int));
        }
        start = start - 1;
    }
    proof {
        let u = t.subrange(0, start as int);
        if start > 0 {
            assert(u.last() == path@[start - 1]);
        }
        assert(suffix_after_last_slash(u) == Seq::<char>::empty());
        assert(suffix_after_last_slash(t) =~= t.subrange(start as int, end as int));
        assert(t.subrange(start as int, end as int) =~= path@.subrange(
            start as int,
            end as int,
        ));
    }
    let seg_len = end - start;
    let is_dot_dot = seg_len == 2 && path.get_char(start) == '.' && path.get_char(start + 1)
        == '.';
    if is_dot_dot {
        proof {
            assert(suffix_after_last_slash(t) =~= seq!['.', '.']);
        }
        String::new()
    } else {
        let seg = path.substring_char(start, end);
        proof {
            let s = path@.subrange(start as int, end as int);
            if s == seq!['.', '.'] {
                assert(seg_len == 2 && path@[start as int] == s[0] && s[0] == '.');
                assert(path@[start as int + 1] == s[1] && s[1] == '.');
                assert(false);
            }
        }
        seg.to_owned()
    }
}

} // verus!
