//! Small executable helpers over strings and byte vectors.

use vstd::prelude::*;

verus! {

/// Whether two strings hold the same characters.
pub fn string_eq(a: &str, b: &str) -> (r: bool)
    ensures
        r == (a@ == b@),
{
    let sa = a.to_owned();
    let sb = b.to_owned();
    sa == sb
}

/// The concatenation of two strings.
pub fn string_concat(a: &str, b: &str) -> (r: String)
    ensures
        r@ == a@ + b@,
{
    let mut s = a.to_owned();
    s.append(b);
    s
}

/// The concatenation of three strings.
pub fn string_concat3(a: &str, b: &str, c: &str) -> (r: String)
    ensures
        r@ == a@ + b@ + c@,
{
    let mut s = a.to_owned();
    s.append(b);
    s.append(c);
    s
}

/// Whether two byte vectors hold the same bytes.
pub fn bytes_eq(a: &Vec<u8>, b: &Vec<u8>) -> (r: bool)
    ensures
        r == (a@ == b@),
{
    if a.len() != b.len() {
        return false;
    }
    let mut i: usize = 0;
    while i < a.len()
        invariant
            0 <= i <= a@.len(),
            a@.len() == b@.len(),
            forall|k: int| 0 <= k < i ==> a@[k] == b@[k],
        decreases a@.len() - i,
    {
        if a[i] != b[i] {
            return false;
        }
        i += 1;
    }
    proof {
        assert(a@ =~= b@);
    }
    true
}

/// Whether `a` is `b` up to ASCII case: equal, or `b` is a lowercase
/// letter and `a` its uppercase form.
pub open spec fn lower_char_eq(a: char, b: char) -> bool {
    a == b || (97 <= b as u32 <= 122 && a as u32 + 32 == b as u32)
}

/// Whether `s` equals the lowercase reference `t` up to ASCII case.
pub open spec fn lower_eq(s: Seq<char>, t: Seq<char>) -> bool {
    s.len() == t.len() && forall|i: int| 0 <= i < s.len() ==> lower_char_eq(s[i], t[i])
}

/// Compares a string against a lowercase reference, ignoring ASCII case.
pub fn eq_ignore_case(s: &str, t: &str) -> (r: bool)
    ensures
        r == lower_eq(s@, t@),
{
    let n = s.unicode_len();
    if n != t.unicode_len() {
        return false;
    }
    let mut i: usize = 0;
    while i < n
        invariant
            0 <= i <= n,
            n == s@.len(),
            n == t@.len(),
            forall|k: int| 0 <= k < i ==> lower_char_eq(s@[k], t@[k]),
        decreases n - i,
    {
        let a = s.get_char(i);
        let b = t.get_char(i);
        let au = a as u32;
        let bu = b as u32;
        if !(a == b || (97 <= bu && bu <= 122 && au + 32 == bu)) {
            return false;
        }
        i += 1;
    }
    true
}

/// The position of the first occurrence of a character, if any.
pub open spec fn find_char(s: Seq<char>, c: char) -> Option<int>
    decreases s.len(),
{
    if s.len() == 0 {
        None
    } else if s[0] == c {
        Some(0)
    } else {
        match find_char(s.skip(1), c) {
            Some(j) => Some(j + 1),
            None => None,
        }
    }
}

/// What `find_char` finds: the first occurrence.
pub proof fn lemma_find_char(s: Seq<char>, c: char)
    ensures
        match find_char(s, c) {
            Some(i) => 0 <= i < s.len() && s[i] == c && forall|k: int| 0 <= k < i ==> s[k] != c,
            None => forall|k: int| 0 <= k < s.len() ==> s[k] != c,
        },
    decreases s.len(),
{
    if s.len() > 0 && s[0] != c {
        lemma_find_char(s.skip(1), c);
        assert(forall|k: int| 0 <= k < s.skip(1).len() ==> #[trigger] s.skip(1)[k] == s[k + 1]);
        match find_char(s.skip(1), c) {
            Some(j) => {
                assert(s[j + 1] == c);
                assert(forall|k: int| 1 <= k < j + 1 ==> s[k] == s.skip(1)[k - 1]);
            },
            None => {
                assert(forall|k: int| 1 <= k < s.len() ==> s[k] == s.skip(1)[k - 1]);
            },
        }
    }
}

/// Finds the first occurrence of a character in a string.
pub fn string_find(s: &str, c: char) -> (r: Option<usize>)
    ensures
        match r {
            Some(i) => find_char(s@, c) == Some(i as int),
            None => find_char(s@, c) is None,
        },
{
    proof {
        lemma_find_char(s@, c);
    }
    let n = s.unicode_len();
    let mut i: usize = 0;
    while i < n
        invariant
            0 <= i <= n,
            n == s@.len(),
            forall|k: int| 0 <= k < i ==> s@[k] != c,
        decreases n - i,
    {
        if s.get_char(i) == c {
            proof {
                lemma_find_char(s@, c);
            }
            return Some(i);
        }
        i += 1;
    }
    proof {
        lemma_find_char(s@, c);
    }
    None
}

/// Whether `path` lies directly under `dir`: it extends `dir` with a
/// separator and a nonempty name that holds no further separator.
pub open spec fn is_direct_child(dir: Seq<char>, path: Seq<char>) -> bool {
    &&& path.len() > dir.len() + 1
    &&& path.take(dir.len() as int) == dir
    &&& path[dir.len() as int] == '/'
    &&& !path.skip(dir.len() as int + 1).contains('/')
}

/// Decides whether `path` lies directly under `dir`.
pub fn direct_child(dir: &str, path: &str) -> (r: bool)
    ensures
        r == is_direct_child(dir@, path@),
{
    let dn = dir.unicode_len();
    let pn = path.unicode_len();
    if pn <= dn {
        return false;
    }
    if pn - dn <= 1 {
        return false;
    }
    let prefix = path.substring_char(0, dn);
    if !string_eq(prefix, dir) {
        proof {
            assert(path@.take(dn as int) =~= path@.subrange(0, dn as int));
        }
        return false;
    }
    if path.get_char(dn) != '/' {
        return false;
    }
    let mut i: usize = dn + 1;
    while i < pn
        invariant
            dn + 1 <= i <= pn,
            dn == dir@.len(),
            pn == path@.len(),
            forall|k: int| dn + 1 <= k < i ==> path@[k] != '/',
        decreases pn - i,
    {
        if path.get_char(i) == '/' {
            proof {
                assert(path@.skip(dn as int + 1)[i - dn - 1] == '/');
            }
            return false;
        }
        i += 1;
    }
    proof {
        assert(path@.take(dn as int) =~= path@.subrange(0, dn as int));
        assert(forall|k: int|
            0 <= k < path@.skip(dn as int + 1).len() ==> #[trigger] path@.skip(dn as int + 1)[k]
                == path@[k + dn + 1]);
        assert(!path@.skip(dn as int + 1).contains('/')) by {
            if path@.skip(dn as int + 1).contains('/') {
                let k = choose|k: int|
                    0 <= k < path@.skip(dn as int + 1).len() && #[trigger] path@.skip(
                        dn as int + 1,
                    )[k] == '/';
                assert(path@[k + dn + 1] == '/');
            }
        }
    }
    true
}

/// A path lies directly under at most one directory.
pub proof fn lemma_direct_child_unique(d1: Seq<char>, d2: Seq<char>, p: Seq<char>)
    requires
        is_direct_child(d1, p),
        is_direct_child(d2, p),
    ensures
        d1 == d2,
{
    if d1.len() < d2.len() {
        assert(p[d2.len() as int] == '/');
        assert(p.skip(d1.len() as int + 1)[d2.len() - d1.len() - 1] == '/');
        assert(p.skip(d1.len() as int + 1).contains('/'));
    }
    if d2.len() < d1.len() {
        assert(p[d1.len() as int] == '/');
        assert(p.skip(d2.len() as int + 1)[d1.len() - d2.len() - 1] == '/');
        assert(p.skip(d2.len() as int + 1).contains('/'));
    }
    assert(d1 =~= p.take(d1.len() as int));
    assert(d2 =~= p.take(d2.len() as int));
}

/// Joining a directory with a separator-free name yields a direct child,
/// and the name is recovered by dropping the directory and separator.
pub proof fn lemma_join_child(dir: Seq<char>, name: Seq<char>)
    requires
        name.len() > 0,
        !name.contains('/'),
    ensures
        is_direct_child(dir, dir + "/"@ + name),
        (dir + "/"@ + name).skip(dir.len() as int + 1) == name,
        (dir + "/"@ + name).len() == dir.len() + 1 + name.len(),
{
    reveal_strlit("/");
    let p = dir + "/"@ + name;
    assert(p.take(dir.len() as int) =~= dir);
    assert(p[dir.len() as int] == '/');
    assert(p.skip(dir.len() as int + 1) =~= name);
}

/// A direct child is its directory, a separator, and its name.
pub proof fn lemma_child_decompose(dir: Seq<char>, p: Seq<char>)
    requires
        is_direct_child(dir, p),
    ensures
        p == dir + "/"@ + p.skip(dir.len() as int + 1),
        p.skip(dir.len() as int + 1).len() > 0,
        !p.skip(dir.len() as int + 1).contains('/'),
{
    reveal_strlit("/");
    assert(p =~= dir + "/"@ + p.skip(dir.len() as int + 1));
}

/// Whether one byte sequence ends with another.
pub open spec fn ends_with_bytes(a: Seq<u8>, b: Seq<u8>) -> bool {
    a.len() >= b.len() && a.skip(a.len() - b.len()) == b
}

/// Whether one byte vector ends with another.
pub fn bytes_ends_with(a: &Vec<u8>, b: &Vec<u8>) -> (r: bool)
    ensures
        r == ends_with_bytes(a@, b@),
{
    let an = a.len();
    let bn = b.len();
    if an < bn {
        return false;
    }
    let off = an - bn;
    let mut i: usize = 0;
    while i < bn
        invariant
            0 <= i <= bn,
            an == a@.len(),
            bn == b@.len(),
            off == an - bn,
            forall|k: int| 0 <= k < i ==> a@[off + k] == b@[k],
        decreases bn - i,
    {
        if a[off + i] != b[i] {
            proof {
                assert(a@.skip(a@.len() - b@.len())[i as int] == a@[off + i]);
            }
            return false;
        }
        i += 1;
    }
    proof {
        assert(a@.skip(a@.len() - b@.len()) =~= b@);
    }
    true
}

} // verus!
