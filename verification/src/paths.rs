//! Path arithmetic shared by the backends: every backend addresses objects by
//! `/`-separated keys, and the adapters agree on how a parent, a last segment
//! and a child key are computed.

use vstd::prelude::*;

verus! {

/// Index of the last `/` in `s`, if any.
pub open spec fn last_slash(s: Seq<char>) -> Option<int>
    decreases s.len(),
{
    if s.len() == 0 {
        None
    } else if s[s.len() - 1] == '/' {
        Some(s.len() - 1)
    } else {
        last_slash(s.drop_last())
    }
}

/// Index of the first `/` in `s`, if any.
pub open spec fn first_slash(s: Seq<char>) -> Option<int>
    decreases s.len(),
{
    if s.len() == 0 {
        None
    } else if s[0] == '/' {
        Some(0)
    } else {
        match first_slash(s.drop_first()) {
            Some(i) => Some(i + 1),
            None => None,
        }
    }
}

/// Everything after the last `/`; the whole path when there is no `/`.
pub open spec fn last_segment(s: Seq<char>) -> Seq<char> {
    match last_slash(s) {
        Some(i) => s.subrange(i + 1, s.len() as int),
        None => s,
    }
}

/// The path that renaming `s` to `name` produces: only the last segment
/// changes.
pub open spec fn renamed_path(s: Seq<char>, name: Seq<char>) -> Seq<char> {
    match last_slash(s) {
        Some(i) => s.subrange(0, i + 1) + name,
        None => name,
    }
}

/// The key of a child called `name` under the directory path `dir`: the root
/// (empty) directory contributes no leading separator.
pub open spec fn child_path(dir: Seq<char>, name: Seq<char>) -> Seq<char> {
    if dir.len() == 0 {
        name
    } else {
        dir + seq!['/'] + name
    }
}

/// The first segment of a relative key: everything before the first `/`.
pub open spec fn first_segment(s: Seq<char>) -> Seq<char> {
    match first_slash(s) {
        Some(i) => s.subrange(0, i),
        None => s,
    }
}

/// Whether the relative key reaches below its first segment.
pub open spec fn has_subpath(s: Seq<char>) -> bool {
    first_slash(s) is Some
}

pub proof fn lemma_last_slash_properties(s: Seq<char>)
    ensures
        match last_slash(s) {
            Some(i) => 0 <= i < s.len() && s[i] == '/' && (forall|j: int|
                i < j < s.len() ==> s[j] != '/'),
            None => forall|j: int| 0 <= j < s.len() ==> s[j] != '/',
        },
    decreases s.len(),
{
    if s.len() > 0 && s[s.len() - 1] != '/' {
        lemma_last_slash_properties(s.drop_last());
        match last_slash(s.drop_last()) {
            Some(i) => {
                assert(s.drop_last()[i] == s[i]);
                assert forall|j: int| i < j < s.len() implies s[j] != '/' by {
                    if j < s.len() - 1 {
                        assert(s.drop_last()[j] == s[j]);
                    }
                }
            },
            None => {
                assert forall|j: int| 0 <= j < s.len() implies s[j] != '/' by {
                    if j < s.len() - 1 {
                        assert(s.drop_last()[j] == s[j]);
                    }
                }
            },
        }
    }
}

pub proof fn lemma_first_slash_properties(s: Seq<char>)
    ensures
        match first_slash(s) {
            Some(i) => 0 <= i < s.len() && s[i] == '/' && (forall|j: int|
                0 <= j < i ==> s[j] != '/'),
            None => forall|j: int| 0 <= j < s.len() ==> s[j] != '/',
        },
    decreases s.len(),
{
    if s.len() > 0 && s[0] != '/' {
        lemma_first_slash_properties(s.drop_first());
        match first_slash(s.drop_first()) {
            Some(i) => {
                assert(s.drop_first()[i] == s[i + 1]);
                assert forall|j: int| 0 <= j < i + 1 implies s[j] != '/' by {
                    if j > 0 {
                        assert(s.drop_first()[j - 1] == s[j]);
                    }
                }
            },
            None => {
                assert forall|j: int| 0 <= j < s.len() implies s[j] != '/' by {
                    if j > 0 {
                        assert(s.drop_first()[j - 1] == s[j]);
                    }
                }
            },
        }
    }
}

/// A position that holds `/` with none later is the last slash.
pub proof fn lemma_last_slash_is(s: Seq<char>, i: int)
    requires
        0 <= i < s.len(),
        s[i] == '/',
        forall|j: int| i < j < s.len() ==> s[j] != '/',
    ensures
        last_slash(s) == Some(i),
{
    lemma_last_slash_properties(s);
    match last_slash(s) {
        Some(k) => {
            if k < i {
                assert(s[i] != '/');
            } else if k > i {
                assert(s[k] != '/');
            }
        },
        None => {
            assert(s[i] != '/');
        },
    }
}

/// A position that holds `/` with none earlier is the first slash.
pub proof fn lemma_first_slash_is(s: Seq<char>, i: int)
    requires
        0 <= i < s.len(),
        s[i] == '/',
        forall|j: int| 0 <= j < i ==> s[j] != '/',
    ensures
        first_slash(s) == Some(i),
{
    lemma_first_slash_properties(s);
    match first_slash(s) {
        Some(k) => {
            if k < i {
                assert(s[k] != '/');
            } else if k > i {
                assert(s[i] != '/');
            }
        },
        None => {
            assert(s[i] != '/');
        },
    }
}

/// A sequence without `/` has no first slash.
pub proof fn lemma_no_slash(s: Seq<char>)
    requires
        forall|j: int| 0 <= j < s.len() ==> s[j] != '/',
    ensures
        first_slash(s) is None,
        last_slash(s) is None,
{
    lemma_first_slash_properties(s);
    match first_slash(s) {
        Some(i) => {
            assert(s[i] != '/');
        },
        None => {},
    }
    lemma_last_slash_properties(s);
    match last_slash(s) {
        Some(i) => {
            assert(s[i] != '/');
        },
        None => {},
    }
}

/// `last_slash` looks only at the last character and the rest of the prefix.
proof fn lemma_last_slash_extend(s: Seq<char>, i: int)
    requires
        0 <= i < s.len(),
    ensures
        last_slash(s.subrange(0, i + 1)) == (if s[i] == '/' {
            Some(i)
        } else {
            last_slash(s.subrange(0, i))
        }),
{
    let t = s.subrange(0, i + 1);
    assert(t.drop_last() =~= s.subrange(0, i));
}

proof fn lemma_first_slash_extend(s: Seq<char>, i: int)
    requires
        0 <= i < s.len(),
        first_slash(s.subrange(0, i)) is None,
    ensures
        first_slash(s.subrange(0, i + 1)) == (if s[i] == '/' {
            Some(i)
        } else {
            Option::<int>::None
        }),
    decreases i,
{
    let t = s.subrange(0, i + 1);
    if i == 0 {
        assert(t =~= seq![s[0]]);
        if s[0] != '/' {
            assert(t.drop_first() =~= Seq::<char>::empty());
        }
    } else {
        if t[0] == '/' {
            assert(s.subrange(0, i)[0] == '/');
            assert(first_slash(s.subrange(0, i)) is Some);
        } else {
            assert(s.subrange(0, i)[0] == t[0]);
            assert(first_slash(s.subrange(0, i).drop_first()) is None) by {
                if first_slash(s.subrange(0, i).drop_first()) is Some {
                    assert(first_slash(s.subrange(0, i)) is Some);
                }
            }
            assert(s.subrange(0, i).drop_first() =~= s.subrange(1, i));
            assert(t.drop_first() =~= s.subrange(1, i + 1));
            assert(s.subrange(1, s.len() as int).subrange(0, i - 1) =~= s.subrange(1, i));
            assert(s.subrange(1, s.len() as int).subrange(0, i) =~= s.subrange(1, i + 1));
            assert(s.subrange(1, s.len() as int)[i - 1] == s[i]);
            lemma_first_slash_extend(s.subrange(1, s.len() as int), i - 1);
        }
    }
}

/// Index just after the last `/` of `s`, or `None`.
pub fn find_last_slash(s: &str) -> (r: Option<usize>)
    ensures
        match r {
            Some(i) => last_slash(s@) == Some(i as int),
            None => last_slash(s@) is None,
        },
{
    let n = s.unicode_len();
    let mut i: usize = 0;
    let mut best: Option<usize> = None;
    proof {
        assert(s@.subrange(0, 0) =~= Seq::<char>::empty());
    }
    while i < n
        invariant
            0 <= i <= n,
            n == s@.len(),
            match best {
                Some(b) => b < i && last_slash(s@.subrange(0, i as int)) == Some(b as int),
                None => last_slash(s@.subrange(0, i as int)) is None,
            },
        decreases n - i,
    {
        let c = s.get_char(i);
        proof {
            lemma_last_slash_extend(s@, i as int);
        }
        if c == '/' {
            best = Some(i);
        }
        i += 1;
    }
    proof {
        assert(s@.subrange(0, n as int) =~= s@);
    }
    best
}

/// Index of the first `/` of `s`, or `None`.
pub fn find_first_slash(s: &str) -> (r: Option<usize>)
    ensures
        match r {
            Some(i) => first_slash(s@) == Some(i as int),
            None => first_slash(s@) is None,
        },
{
    let n = s.unicode_len();
    let mut i: usize = 0;
    proof {
        assert(s@.subrange(0, 0) =~= Seq::<char>::empty());
    }
    while i < n
        invariant
            0 <= i <= n,
            n == s@.len(),
            first_slash(s@.subrange(0, i as int)) is None,
        decreases n - i,
    {
        let c = s.get_char(i);
        proof {
            lemma_first_slash_extend(s@, i as int);
        }
        if c == '/' {
            proof {
                assert(s@.subrange(0, i + 1).is_prefix_of(s@));
            }
            proof {
                lemma_first_slash_of_prefix(s@, i as int);
            }
            return Some(i);
        }
        i += 1;
    }
    proof {
        assert(s@.subrange(0, n as int) =~= s@);
    }
    None
}

/// A first slash found in a prefix is the first slash of the whole string.
proof fn lemma_first_slash_of_prefix(s: Seq<char>, i: int)
    requires
        0 <= i < s.len(),
        first_slash(s.subrange(0, i + 1)) == Some(i),
    ensures
        first_slash(s) == Some(i),
{
    lemma_first_slash_properties(s.subrange(0, i + 1));
    lemma_first_slash_properties(s);
    match first_slash(s) {
        Some(j) => {
            if j < i {
                assert(s.subrange(0, i + 1)[j] == s[j]);
            } else if j > i {
                assert(s[i] == s.subrange(0, i + 1)[i]);
            }
        },
        None => {
            assert(s[i] == s.subrange(0, i + 1)[i]);
        },
    }
}

/// Everything after the last `/`.
pub fn last_segment_of(s: &str) -> (r: String)
    ensures
        r@ == last_segment(s@),
{
    let n = s.unicode_len();
    match find_last_slash(s) {
        Some(i) => {
            proof {
                lemma_last_slash_properties(s@);
            }
            let r = s.substring_char(i + 1, n);
            r.to_owned()
        },
        None => s.to_owned(),
    }
}

/// The path `rename` moves an object to: the parent is kept and only the
/// last segment is replaced.
pub fn renamed_path_of(s: &str, name: &str) -> (r: String)
    ensures
        r@ == renamed_path(s@, name@),
{
    let n = s.unicode_len();
    match find_last_slash(s) {
        Some(i) => {
            proof {
                lemma_last_slash_properties(s@);
            }
            assert(i < n);
            let mut r = s.substring_char(0, i + 1).to_owned();
            r.append(name);
            r
        },
        None => name.to_owned(),
    }
}

/// The key of the child `name` of directory `dir`.
pub fn child_path_of(dir: &str, name: &str) -> (r: String)
    ensures
        r@ == child_path(dir@, name@),
{
    if dir.unicode_len() == 0 {
        name.to_owned()
    } else {
        let mut r = dir.to_owned();
        r.append("/");
        r.append(name);
        proof {
            reveal_strlit("/");
            assert(r@ =~= child_path(dir@, name@));
        }
        r
    }
}

/// Whether `p` is a prefix of `s`, character for character.
pub fn str_starts_with(s: &str, p: &str) -> (r: bool)
    ensures
        r == p@.is_prefix_of(s@),
{
    let n = s.unicode_len();
    let m = p.unicode_len();
    if m > n {
        return false;
    }
    let mut i: usize = 0;
    while i < m
        invariant
            0 <= i <= m <= n,
            n == s@.len(),
            m == p@.len(),
            forall|j: int| 0 <= j < i ==> s@[j] == p@[j],
        decreases m - i,
    {
        if s.get_char(i) != p.get_char(i) {
            assert(!p@.is_prefix_of(s@));
            return false;
        }
        i += 1;
    }
    assert(p@ =~= s@.subrange(0, m as int));
    true
}

/// Whether two strings hold the same characters.
pub fn str_equal(s: &str, t: &str) -> (r: bool)
    ensures
        r == (s@ == t@),
{
    let n = s.unicode_len();
    let m = t.unicode_len();
    if m != n {
        return false;
    }
    let mut i: usize = 0;
    while i < n
        invariant
            0 <= i <= n,
            n == s@.len(),
            n == t@.len(),
            forall|j: int| 0 <= j < i ==> s@[j] == t@[j],
        decreases n - i,
    {
        if s.get_char(i) != t.get_char(i) {
            assert(s@[i as int] != t@[i as int]);
            return false;
        }
        i += 1;
    }
    assert(s@ =~= t@);
    true
}

/// The suffix of `s` after dropping a verified prefix `p`.
pub fn strip_prefix_of(s: &str, p: &str) -> (r: Option<String>)
    ensures
        match r {
            Some(t) => p@.is_prefix_of(s@) && t@ == s@.skip(p@.len() as int),
            None => !p@.is_prefix_of(s@),
        },
{
    if str_starts_with(s, p) {
        let n = s.unicode_len();
        let m = p.unicode_len();
        let t = s.substring_char(m, n);
        assert(t@ =~= s@.skip(p@.len() as int));
        Some(t.to_owned())
    } else {
        None
    }
}

/// The object-store adapters address keys without a leading `/`: drop one if
/// present.
pub fn strip_leading_slash(s: &str) -> (r: String)
    ensures
        s@.len() > 0 && s@[0] == '/' ==> r@ == s@.skip(1),
        !(s@.len() > 0 && s@[0] == '/') ==> r@ == s@,
{
    let n = s.unicode_len();
    if n > 0 && s.get_char(0) == '/' {
        let t = s.substring_char(1, n);
        assert(t@ =~= s@.skip(1));
        t.to_owned()
    } else {
        s.to_owned()
    }
}

/// Index of the first occurrence of `c` in `s`, if any.
pub open spec fn first_index_of(s: Seq<char>, c: char) -> Option<int>
    decreases s.len(),
{
    if s.len() == 0 {
        None
    } else if s[0] == c {
        Some(0)
    } else {
        match first_index_of(s.drop_first(), c) {
            Some(i) => Some(i + 1),
            None => None,
        }
    }
}

/// Index of the last occurrence of `c` in `s`, if any.
pub open spec fn last_index_of(s: Seq<char>, c: char) -> Option<int>
    decreases s.len(),
{
    if s.len() == 0 {
        None
    } else if s[s.len() - 1] == c {
        Some(s.len() - 1)
    } else {
        last_index_of(s.drop_last(), c)
    }
}

pub proof fn lemma_first_index_properties(s: Seq<char>, c: char)
    ensures
        match first_index_of(s, c) {
            Some(i) => 0 <= i < s.len() && s[i] == c && (forall|j: int|
                0 <= j < i ==> s[j] != c),
            None => forall|j: int| 0 <= j < s.len() ==> s[j] != c,
        },
    decreases s.len(),
{
    if s.len() > 0 && s[0] != c {
        lemma_first_index_properties(s.drop_first(), c);
        match first_index_of(s.drop_first(), c) {
            Some(i) => {
                assert(s.drop_first()[i] == s[i + 1]);
                assert forall|j: int| 0 <= j < i + 1 implies s[j] != c by {
                    if j > 0 {
                        assert(s.drop_first()[j - 1] == s[j]);
                    }
                }
            },
            None => {
                assert forall|j: int| 0 <= j < s.len() implies s[j] != c by {
                    if j > 0 {
                        assert(s.drop_first()[j - 1] == s[j]);
                    }
                }
            },
        }
    }
}

pub proof fn lemma_last_index_properties(s: Seq<char>, c: char)
    ensures
        match last_index_of(s, c) {
            Some(i) => 0 <= i < s.len() && s[i] == c && (forall|j: int|
                i < j < s.len() ==> s[j] != c),
            None => forall|j: int| 0 <= j < s.len() ==> s[j] != c,
        },
    decreases s.len(),
{
    if s.len() > 0 && s[s.len() - 1] != c {
        lemma_last_index_properties(s.drop_last(), c);
        match last_index_of(s.drop_last(), c) {
            Some(i) => {
                assert(s.drop_last()[i] == s[i]);
                assert forall|j: int| i < j < s.len() implies s[j] != c by {
                    if j < s.len() - 1 {
                        assert(s.drop_last()[j] == s[j]);
                    }
                }
            },
            None => {
                assert forall|j: int| 0 <= j < s.len() implies s[j] != c by {
                    if j < s.len() - 1 {
                        assert(s.drop_last()[j] == s[j]);
                    }
                }
            },
        }
    }
}

/// A position that holds `c` with none later is the last occurrence.
pub proof fn lemma_last_index_is(s: Seq<char>, c: char, i: int)
    requires
        0 <= i < s.len(),
        s[i] == c,
        forall|j: int| i < j < s.len() ==> s[j] != c,
    ensures
        last_index_of(s, c) == Some(i),
{
    lemma_last_index_properties(s, c);
    match last_index_of(s, c) {
        Some(k) => {
            if k < i {
                assert(s[i] != c);
            } else if k > i {
                assert(s[k] != c);
            }
        },
        None => {
            assert(s[i] != c);
        },
    }
}

/// `first_index_of` looks only at the scanned prefix.
proof fn lemma_first_index_extend(s: Seq<char>, c: char, i: int)
    requires
        0 <= i < s.len(),
        first_index_of(s.subrange(0, i), c) is None,
    ensures
        first_index_of(s.subrange(0, i + 1), c) == (if s[i] == c {
            Some(i)
        } else {
            Option::<int>::None
        }),
    decreases i,
{
    let t = s.subrange(0, i + 1);
    if i == 0 {
        assert(t =~= seq![s[0]]);
        if s[0] != c {
            assert(t.drop_first() =~= Seq::<char>::empty());
        }
    } else {
        if t[0] == c {
            assert(s.subrange(0, i)[0] == c);
            assert(first_index_of(s.subrange(0, i), c) is Some);
        } else {
            assert(s.subrange(0, i)[0] == t[0]);
            assert(first_index_of(s.subrange(0, i).drop_first(), c) is None) by {
                if first_index_of(s.subrange(0, i).drop_first(), c) is Some {
                    assert(first_index_of(s.subrange(0, i), c) is Some);
                }
            }
            assert(s.subrange(0, i).drop_first() =~= s.subrange(1, i));
            assert(t.drop_first() =~= s.subrange(1, i + 1));
            assert(s.subrange(1, s.len() as int).subrange(0, i - 1) =~= s.subrange(1, i));
            assert(s.subrange(1, s.len() as int).subrange(0, i) =~= s.subrange(1, i + 1));
            assert(s.subrange(1, s.len() as int)[i - 1] == s[i]);
            lemma_first_index_extend(s.subrange(1, s.len() as int), c, i - 1);
        }
    }
}

/// A first occurrence found in a prefix is the first of the whole string.
proof fn lemma_first_index_of_prefix(s: Seq<char>, c: char, i: int)
    requires
        0 <= i < s.len(),
        first_index_of(s.subrange(0, i + 1), c) == Some(i),
    ensures
        first_index_of(s, c) == Some(i),
{
    lemma_first_index_properties(s.subrange(0, i + 1), c);
    lemma_first_index_properties(s, c);
    match first_index_of(s, c) {
        Some(j) => {
            if j < i {
                assert(s.subrange(0, i + 1)[j] == s[j]);
            } else if j > i {
                assert(s[i] == s.subrange(0, i + 1)[i]);
            }
        },
        None => {
            assert(s[i] == s.subrange(0, i + 1)[i]);
        },
    }
}

/// Index of the first occurrence of `c` in `s`, or `None`.
pub fn find_char(s: &str, c: char) -> (r: Option<usize>)
    ensures
        match r {
            Some(i) => first_index_of(s@, c) == Some(i as int),
            None => first_index_of(s@, c) is None,
        },
{
    let n = s.unicode_len();
    let mut i: usize = 0;
    proof {
        assert(s@.subrange(0, 0) =~= Seq::<char>::empty());
    }
    while i < n
        invariant
            0 <= i <= n,
            n == s@.len(),
            first_index_of(s@.subrange(0, i as int), c) is None,
        decreases n - i,
    {
        let ch = s.get_char(i);
        proof {
            lemma_first_index_extend(s@, c, i as int);
        }
        if ch == c {
            proof {
                lemma_first_index_of_prefix(s@, c, i as int);
            }
            return Some(i);
        }
        i += 1;
    }
    proof {
        assert(s@.subrange(0, n as int) =~= s@);
    }
    None
}

/// `last_index_of` looks only at the last character and the rest.
proof fn lemma_last_index_extend(s: Seq<char>, c: char, i: int)
    requires
        0 <= i < s.len(),
    ensures
        last_index_of(s.subrange(0, i + 1), c) == (if s[i] == c {
            Some(i)
        } else {
            last_index_of(s.subrange(0, i), c)
        }),
{
    let t = s.subrange(0, i + 1);
    assert(t.drop_last() =~= s.subrange(0, i));
}

/// Index of the last occurrence of `c` in `s`, or `None`.
pub fn rfind_char(s: &str, c: char) -> (r: Option<usize>)
    ensures
        match r {
            Some(i) => last_index_of(s@, c) == Some(i as int),
            None => last_index_of(s@, c) is None,
        },
{
    let n = s.unicode_len();
    let mut i: usize = 0;
    let mut best: Option<usize> = None;
    proof {
        assert(s@.subrange(0, 0) =~= Seq::<char>::empty());
    }
    while i < n
        invariant
            0 <= i <= n,
            n == s@.len(),
            match best {
                Some(b) => b < i && last_index_of(s@.subrange(0, i as int), c) == Some(b as int),
                None => last_index_of(s@.subrange(0, i as int), c) is None,
            },
        decreases n - i,
    {
        let ch = s.get_char(i);
        proof {
            lemma_last_index_extend(s@, c, i as int);
        }
        if ch == c {
            best = Some(i);
        }
        i += 1;
    }
    proof {
        assert(s@.subrange(0, n as int) =~= s@);
    }
    best
}


} // verus!
