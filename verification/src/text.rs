//! Character-level helpers shared by the JSON and path code.
use vstd::prelude::*;

verus! {

/// The characters of `s`, in order.
pub fn chars_of(s: &str) -> (r: Vec<char>)
    ensures
        r@ == s@,
{
    broadcast use vstd::string::axiom_spec_iter;

    let mut out: Vec<char> = Vec::new();
    for c in it: s.chars()
        invariant
            out@ == it.seq().take(it.index() as int),
    {
        out.push(c);
    }
    out
}

/// The string made of the characters of `v`, in order.
///
/// Calls `FromIterator<char>` for `String` (through `collect`); the contract claims that
/// the string's characters are those of the slice, as the std documentation states.
#[verifier::external_body]
pub(crate) fn string_of(v: &[char]) -> (r: String)
    ensures
        r@ == v@,
{
    v.iter().collect()
}

/// Lexicographic order on character sequences, comparing characters by code point.
/// For strings this is the order of `str`'s `Ord`, which compares UTF-8 bytes.
pub open spec fn seq_lt(a: Seq<char>, b: Seq<char>) -> bool
    decreases a.len(),
{
    if b.len() == 0 {
        false
    } else if a.len() == 0 {
        true
    } else if a[0] != b[0] {
        (a[0] as u32) < (b[0] as u32)
    } else {
        seq_lt(a.drop_first(), b.drop_first())
    }
}

/// Whether `a` sorts strictly before `b`.
pub fn chars_lt(a: &Vec<char>, b: &Vec<char>) -> (r: bool)
    ensures
        r == seq_lt(a@, b@),
{
    let mut i: usize = 0;
    proof {
        assert(a@.skip(0) =~= a@);
        assert(b@.skip(0) =~= b@);
    }
    while i < a.len() && i < b.len() && a[i] == b[i]
        invariant
            i <= a.len(),
            i <= b.len(),
            seq_lt(a@, b@) == seq_lt(a@.skip(i as int), b@.skip(i as int)),
        decreases a.len() - i,
    {
        proof {
            let sa = a@.skip(i as int);
            let sb = b@.skip(i as int);
            assert(sa.drop_first() =~= a@.skip(i + 1));
            assert(sb.drop_first() =~= b@.skip(i + 1));
        }
        i = i + 1;
    }
    proof {
        if i < a.len() && i < b.len() {
            assert(a@.skip(i as int)[0] == a@[i as int]);
            assert(b@.skip(i as int)[0] == b@[i as int]);
        }
    }
    if i == b.len() {
        false
    } else if i == a.len() {
        true
    } else {
        (a[i] as u32) < (b[i] as u32)
    }
}

/// Index of the first occurrence of `c` in `s`, if any.
pub open spec fn first_char_index(s: Seq<char>, c: char) -> int
    decreases s.len(),
{
    if s.len() == 0 {
        -1
    } else if s[0] == c {
        0
    } else if first_char_index(s.drop_first(), c) == -1 {
        -1
    } else {
        first_char_index(s.drop_first(), c) + 1
    }
}

pub proof fn lemma_first_char_index(s: Seq<char>, c: char)
    ensures
        -1 <= first_char_index(s, c) < s.len(),
        first_char_index(s, c) == -1 ==> forall|k: int| 0 <= k < s.len() ==> s[k] != c,
        first_char_index(s, c) >= 0 ==> s[first_char_index(s, c)] == c && forall|k: int|
            0 <= k < first_char_index(s, c) ==> s[k] != c,
    decreases s.len(),
{
    if s.len() > 0 {
        lemma_first_char_index(s.drop_first(), c);
        if s[0] != c {
            assert forall|k: int| 1 <= k < s.len() implies s[k] == s.drop_first()[k - 1] by {}
        }
    }
}

/// Characterises the first index by its defining property.
pub proof fn lemma_first_char_index_is(s: Seq<char>, c: char, i: int)
    requires
        -1 <= i < s.len(),
        i >= 0 ==> s[i] == c,
        forall|k: int| 0 <= k < s.len() && (i == -1 || k < i) ==> s[k] != c,
    ensures
        first_char_index(s, c) == i,
{
    lemma_first_char_index(s, c);
    let f = first_char_index(s, c);
    if f != i {
        if f == -1 {
            assert(s[i] == c);
        } else if i == -1 {
            assert(s[f] == c);
        } else if f < i {
            assert(s[f] == c);
        } else {
            assert(s[i] == c);
        }
    }
}

/// Finds the first occurrence of `c` in `s`.
pub fn find_char(s: &Vec<char>, c: char) -> (r: Option<usize>)
    ensures
        match r {
            Some(i) => i as int == first_char_index(s@, c),
            None => first_char_index(s@, c) == -1,
        },
{
    let mut i: usize = 0;
    while i < s.len()
        invariant
            i <= s.len(),
            forall|k: int| 0 <= k < i ==> s@[k] != c,
        decreases s.len() - i,
    {
        if s[i] == c {
            proof { lemma_first_char_index_is(s@, c, i as int); }
            return Some(i);
        }
        i = i + 1;
    }
    proof { lemma_first_char_index_is(s@, c, -1); }
    None
}

/// Index of the last occurrence of `c` in `s`, or -1.
pub open spec fn last_char_index(s: Seq<char>, c: char) -> int
    decreases s.len(),
{
    if s.len() == 0 {
        -1
    } else if s.last() == c {
        s.len() - 1
    } else {
        last_char_index(s.drop_last(), c)
    }
}

pub proof fn lemma_last_char_index(s: Seq<char>, c: char)
    ensures
        -1 <= last_char_index(s, c) < s.len(),
    decreases s.len(),
{
    if s.len() > 0 {
        lemma_last_char_index(s.drop_last(), c);
    }
}

/// Finds the last occurrence of `c` in `s[..end]`.
pub fn find_last_char(s: &Vec<char>, end: usize, c: char) -> (r: Option<usize>)
    requires
        end <= s.len(),
    ensures
        match r {
            Some(i) => i as int == last_char_index(s@.subrange(0, end as int), c),
            None => last_char_index(s@.subrange(0, end as int), c) == -1,
        },
{
    let mut i = end;
    while i > 0 && s[i - 1] != c
        invariant
            i <= end <= s.len(),
            last_char_index(s@.subrange(0, end as int), c) == last_char_index(
                s@.subrange(0, i as int),
                c,
            ),
        decreases i,
    {
        proof {
            assert(s@.subrange(0, i as int).drop_last() =~= s@.subrange(0, i - 1));
        }
        i = i - 1;
    }
    if i == 0 {
        proof { assert(s@.subrange(0, 0).len() == 0); }
        None
    } else {
        Some(i - 1)
    }
}

/// Whether `pre` is a prefix of `s`.
pub open spec fn is_prefix(pre: Seq<char>, s: Seq<char>) -> bool {
    pre.len() <= s.len() && s.subrange(0, pre.len() as int) == pre
}

/// `s` without the prefix `pre`, when `s` starts with it.
pub fn strip_prefix(s: &str, pre: &str) -> (r: Option<String>)
    ensures
        match r {
            Some(rest) => is_prefix(pre@, s@) && rest@ == s@.subrange(pre@.len() as int, s@.len() as int),
            None => !is_prefix(pre@, s@),
        },
{
    let sc = chars_of(s);
    let pc = chars_of(pre);
    if pc.len() > sc.len() {
        return None;
    }
    let mut i: usize = 0;
    while i < pc.len()
        invariant
            sc@ == s@,
            pc@ == pre@,
            pc.len() <= sc.len(),
            i <= pc.len(),
            forall|k: int| 0 <= k < i ==> sc@[k] == pc@[k],
        decreases pc.len() - i,
    {
        if sc[i] != pc[i] {
            proof { assert(s@.subrange(0, pre@.len() as int)[i as int] != pre@[i as int]); }
            return None;
        }
        i = i + 1;
    }
    proof { assert(s@.subrange(0, pre@.len() as int) =~= pre@); }
    Some(slice_string(&sc, pc.len(), sc.len()))
}

/// A copy of `s[from..to]`.
pub fn slice_string(s: &Vec<char>, from: usize, to: usize) -> (r: String)
    requires
        from <= to <= s.len(),
    ensures
        r@ == s@.subrange(from as int, to as int),
{
    let mut v: Vec<char> = Vec::new();
    let mut i = from;
    while i < to
        invariant
            from <= i <= to <= s.len(),
            v@ == s@.subrange(from as int, i as int),
        decreases to - i,
    {
        v.push(s[i]);
        proof { assert(v@ =~= s@.subrange(from as int, i + 1)); }
        i = i + 1;
    }
    string_of(v.as_slice())
}

/// A copy of `s[from..to]` as characters.
pub fn slice_chars(s: &Vec<char>, from: usize, to: usize) -> (r: Vec<char>)
    requires
        from <= to <= s.len(),
    ensures
        r@ == s@.subrange(from as int, to as int),
{
    let mut v: Vec<char> = Vec::new();
    let mut i = from;
    while i < to
        invariant
            from <= i <= to <= s.len(),
            v@ == s@.subrange(from as int, i as int),
        decreases to - i,
    {
        v.push(s[i]);
        proof { assert(v@ =~= s@.subrange(from as int, i + 1)); }
        i = i + 1;
    }
    v
}

/// Whether two strings hold the same characters.
pub fn str_eq(a: &str, b: &str) -> (r: bool)
    ensures
        r == (a@ == b@),
{
    let va = chars_of(a);
    let vb = chars_of(b);
    if va.len() != vb.len() {
        return false;
    }
    let mut i: usize = 0;
    while i < va.len()
        invariant
            va@ == a@,
            vb@ == b@,
            va.len() == vb.len(),
            i <= va.len(),
            forall|k: int| 0 <= k < i ==> va@[k] == vb@[k],
        decreases va.len() - i,
    {
        if va[i] != vb[i] {
            proof { assert(a@[i as int] != b@[i as int]); }
            return false;
        }
        i = i + 1;
    }
    proof { assert(va@ =~= vb@); }
    true
}

} // verus!
