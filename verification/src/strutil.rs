//! Small verified helpers over strings and characters.

use vstd::prelude::*;

verus! {

/// Character-wise string equality.
pub fn str_eq(a: &str, b: &str) -> (r: bool)
    ensures
        r == (a@ == b@),
{
    let na = a.unicode_len();
    let nb = b.unicode_len();
    if na != nb {
        return false;
    }
    let mut i: usize = 0;
    while i < na
        invariant
            na == a@.len(),
            nb == b@.len(),
            na == nb,
            i <= na,
            forall|k: int| 0 <= k < i ==> a@[k] == b@[k],
        decreases na - i,
    {
        if a.get_char(i) != b.get_char(i) {
            return false;
        }
        i += 1;
    }
    proof {
        assert(a@ =~= b@);
    }
    true
}

/// The characters of a string, as a vector.
pub fn str_to_chars(s: &str) -> (r: Vec<char>)
    ensures
        r@ == s@,
{
    let n = s.unicode_len();
    let mut r: Vec<char> = Vec::new();
    let mut i: usize = 0;
    while i < n
        invariant
            n == s@.len(),
            i <= n,
            r@ == s@.take(i as int),
        decreases n - i,
    {
        r.push(s.get_char(i));
        proof {
            assert(s@.take(i + 1 as int) =~= s@.take(i as int).push(s@[i as int]));
        }
        i += 1;
    }
    proof {
        assert(s@.take(n as int) =~= s@);
    }
    r
}

/// An element-wise copy of a vector of strings.
pub fn clone_string_vec(v: &Vec<String>) -> (r: Vec<String>)
    ensures
        r@.map_values(|s: String| s@) == v@.map_values(|s: String| s@),
        r@.len() == v@.len(),
{
    let n = v.len();
    let mut r: Vec<String> = Vec::new();
    let mut i: usize = 0;
    while i < n
        invariant
            n == v@.len(),
            i <= n,
            r@.len() == i,
            forall|k: int| 0 <= k < i ==> (#[trigger] r@[k])@ == v@[k]@,
        decreases n - i,
    {
        r.push(v[i].clone());
        i += 1;
    }
    proof {
        assert(r@.map_values(|s: String| s@) =~= v@.map_values(|s: String| s@));
    }
    r
}

/// The base name of a path: the part after the last separator.
pub open spec fn basename(p: Seq<char>) -> Seq<char>
    decreases p.len(),
{
    if p.len() == 0 {
        p
    } else if p.last() == '/' {
        Seq::empty()
    } else {
        basename(p.drop_last()).push(p.last())
    }
}

pub(crate) proof fn lemma_basename_suffix(s: Seq<char>, j: int)
    requires
        0 <= j <= s.len(),
        forall|k: int| j <= k < s.len() ==> s[k] != '/',
        j > 0 ==> s[j - 1] == '/',
    ensures
        basename(s) == s.skip(j),
    decreases s.len(),
{
    if s.len() == j {
        if j > 0 {
            assert(s.last() == '/');
            assert(basename(s) =~= s.skip(j));
        } else {
            assert(basename(s) =~= s.skip(j));
        }
    } else {
        assert(s.last() != '/');
        lemma_basename_suffix(s.drop_last(), j);
        assert(basename(s) == basename(s.drop_last()).push(s.last()));
        assert(s.drop_last().skip(j).push(s.last()) =~= s.skip(j));
    }
}

/// The base name of a path: the part after the last separator.
pub fn base_name_str(path: &str) -> (r: &str)
    ensures
        r@ == basename(path@),
{
    let n = path.unicode_len();
    let mut j: usize = n;
    while j > 0 && path.get_char(j - 1) != '/'
        invariant
            j <= n,
            n == path@.len(),
            forall|k: int| j <= k < n ==> path@[k] != '/',
        decreases j,
    {
        j -= 1;
    }
    proof {
        lemma_basename_suffix(path@, j as int);
        assert(path@.subrange(j as int, n as int) =~= path@.skip(j as int));
    }
    path.substring_char(j, n)
}

/// The extension of a file name: the portion after the last dot, provided
/// the dot is neither the first character nor absent; a trailing dot gives
/// an empty extension.
pub open spec fn ext_of(name: Seq<char>) -> Option<Seq<char>>
    decreases name.len(),
{
    if name.len() <= 1 {
        None
    } else if name.last() == '.' {
        Some(Seq::empty())
    } else {
        match ext_of(name.drop_last()) {
            Some(e) => Some(e.push(name.last())),
            None => None,
        }
    }
}

/// The stem of a file name: the portion before the extension's dot, or the
/// whole name when there is no extension.
pub open spec fn stem_of(name: Seq<char>) -> Seq<char> {
    match ext_of(name) {
        Some(e) => name.take(name.len() - e.len() - 1),
        None => name,
    }
}

/// The length of the extension of the first `n` characters of the name, if
/// one exists there.
fn ext_len_rec(name: &str, n: usize) -> (r: Option<usize>)
    requires
        n <= name@.len(),
    ensures
        match r {
            None => ext_of(name@.take(n as int)) is None,
            Some(k) => k < n && ext_of(name@.take(n as int)) == Some(
                name@.subrange(n - k, n as int),
            ),
        },
    decreases n,
{
    if n <= 1 {
        return None;
    }
    let c = name.get_char(n - 1);
    proof {
        assert(name@.take(n as int).drop_last() =~= name@.take(n - 1));
        assert(name@.take(n as int).last() == name@[n - 1]);
    }
    if c == '.' {
        proof {
            assert(name@.subrange(n as int, n as int) =~= Seq::<char>::empty());
        }
        Some(0)
    } else {
        match ext_len_rec(name, n - 1) {
            Some(k) => {
                proof {
                    assert(name@.subrange(n - 1 - k, n - 1).push(name@[n - 1]) =~= name@.subrange(
                        n - (k + 1),
                        n as int,
                    ));
                }
                Some(k + 1)
            },
            None => None,
        }
    }
}

/// The extension of a file name, if it has one.
pub fn file_extension(name: &str) -> (r: Option<&str>)
    ensures
        match r {
            Some(e) => ext_of(name@) == Some(e@),
            None => ext_of(name@) is None,
        },
{
    let n = name.unicode_len();
    proof {
        assert(name@.take(n as int) =~= name@);
    }
    match ext_len_rec(name, n) {
        Some(k) => Some(name.substring_char(n - k, n)),
        None => None,
    }
}

/// The stem of a file name.
pub fn file_stem(name: &str) -> (r: &str)
    ensures
        r@ == stem_of(name@),
{
    let n = name.unicode_len();
    proof {
        assert(name@.take(n as int) =~= name@);
    }
    match ext_len_rec(name, n) {
        Some(k) => {
            proof {
                assert(name@.subrange(0, n - k - 1) =~= name@.take(n - k - 1));
            }
            name.substring_char(0, n - k - 1)
        },
        None => {
            proof {
                assert(name@.subrange(0, n as int) =~= name@);
            }
            name.substring_char(0, n)
        },
    }
}

} // verus!
