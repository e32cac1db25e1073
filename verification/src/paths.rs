//! Path bookkeeping: a path string, a directory part and a file-name part
//! are kept mutually derivable.  The directory part is everything up to and
//! including the last `/`; the file-name part is everything after it.

use vstd::prelude::*;
use vstd::string::StrSliceExecFns;
use vstd::string::StringExecFns;

verus! {

/// Index of the last `/` in `s`, or -1 when none occurs.
pub open spec fn last_slash(s: Seq<char>) -> int
    decreases s.len(),
{
    if s.len() == 0 {
        -1
    } else if s[s.len() - 1] == '/' {
        s.len() - 1
    } else {
        last_slash(s.drop_last())
    }
}

/// The last-slash index lies inside the sequence when it exists.
pub proof fn lemma_last_slash_bounds(s: Seq<char>)
    ensures
        -1 <= last_slash(s) < s.len(),
    decreases s.len(),
{
    if s.len() > 0 && s[s.len() - 1] != '/' {
        lemma_last_slash_bounds(s.drop_last());
    }
}

/// A directory name, normalized to end in `/` whenever it is not empty.
pub open spec fn normalized_dir(d: Seq<char>) -> Seq<char> {
    if d.len() > 0 && d[d.len() - 1] != '/' {
        d.push('/')
    } else {
        d
    }
}

/// Character index just after the last `/` of `s`, or `None` when `s` holds
/// no `/`.
pub fn find_last_slash(s: &str) -> (r: Option<usize>)
    ensures
        match r {
            Some(i) => i as int == last_slash(s@),
            None => last_slash(s@) == -1,
        },
{
    let n = s.unicode_len();
    let mut i: usize = n;
    proof {
        assert(s@.subrange(0, n as int) =~= s@);
    }
    loop
        invariant
            0 <= i <= n,
            n == s@.len(),
            last_slash(s@) == last_slash(s@.subrange(0, i as int)),
        decreases i,
    {
        if i == 0 {
            proof {
                assert(s@.subrange(0, 0) =~= Seq::<char>::empty());
            }
            return None;
        }
        let c = s.get_char(i - 1);
        proof {
            let t = s@.subrange(0, i as int);
            assert(t[i - 1] == s@[i - 1]);
            assert(t.drop_last() =~= s@.subrange(0, i - 1));
        }
        if c == '/' {
            return Some(i - 1);
        }
        i = i - 1;
    }
}

/// Copy of `d`, with `/` appended when `d` is not empty and does not already
/// end in `/`.
pub fn normalize_directory(d: &str) -> (r: String)
    ensures
        r@ == normalized_dir(d@),
{
    let mut out = d.to_owned();
    let n = d.unicode_len();
    if n > 0 {
        let c = d.get_char(n - 1);
        if c != '/' {
            out.append("/");
            proof {
                reveal_strlit("/");
                assert(out@ =~= d@.push('/'));
            }
        }
    }
    out
}

/// Concatenation of a directory part and a file-name part.
pub fn join_path(dir: &str, file: &str) -> (r: String)
    ensures
        r@ == dir@ + file@,
{
    let mut out = dir.to_owned();
    out.append(file);
    out
}

/// Split of a path at its last `/`: the directory keeps the `/`, the
/// file name is what follows.  A path without `/` is all file name.
pub fn split_path(p: &str) -> (r: (String, String))
    ensures
        ({
            let i = last_slash(p@);
            &&& (i >= 0 ==> r.0@ == p@.subrange(0, i + 1) && r.1@ == p@.subrange(
                i + 1,
                p@.len() as int,
            ))
            &&& (i < 0 ==> r.0@ =~= Seq::<char>::empty() && r.1@ == p@)
        }),
{
    proof {
        lemma_last_slash_bounds(p@);
    }
    match find_last_slash(p) {
        Some(i) => {
            let n = p.unicode_len();
            let dir = p.substring_char(0, i + 1);
            let file = p.substring_char(i + 1, n);
            (dir.to_owned(), file.to_owned())
        },
        None => (String::new(), p.to_owned()),
    }
}

} // verus!
