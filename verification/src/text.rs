//! Small operations on text.
use vstd::prelude::*;
use vstd::string::StrSliceExecFns;

verus! {

/// String equality on `str`.
pub fn str_eq(a: &str, b: &str) -> (r: bool)
    ensures
        r == (a@ == b@),
{
    let x = a.to_owned();
    let y = b.to_owned();
    x == y
}


/// The rest of `s` after the prefix `p`, if `s` starts with `p`.
pub open spec fn spec_strip_prefix(s: Seq<char>, p: Seq<char>) -> Option<Seq<char>> {
    if p.len() <= s.len() && s.subrange(0, p.len() as int) == p {
        Some(s.subrange(p.len() as int, s.len() as int))
    } else {
        None
    }
}

/// `str::strip_prefix` with a text prefix.
pub fn strip_prefix<'a>(s: &'a str, p: &str) -> (r: Option<&'a str>)
    ensures
        r matches Some(rest) ==> spec_strip_prefix(s@, p@) == Some(rest@),
        r is None ==> spec_strip_prefix(s@, p@) is None,
{
    let n = s.unicode_len();
    let m = p.unicode_len();
    if m > n {
        return None;
    }
    let mut i: usize = 0;
    while i < m
        invariant
            m == p@.len(),
            n == s@.len(),
            m <= n,
            i <= m,
            forall|k: int| 0 <= k < i ==> s@[k] == p@[k],
        decreases m - i,
    {
        if s.get_char(i) != p.get_char(i) {
            assert(s@.subrange(0, m as int)[i as int] != p@[i as int]);
            return None;
        }
        i = i + 1;
    }
    assert(s@.subrange(0, m as int) =~= p@);
    Some(s.substring_char(m, n))
}


/// The characters of `s`.
pub fn chars_of(s: &str) -> (v: Vec<char>)
    ensures
        v@ == s@,
{
    let n = s.unicode_len();
    let mut v: Vec<char> = Vec::new();
    let mut i: usize = 0;
    while i < n
        invariant
            n == s@.len(),
            i <= n,
            v@ == s@.take(i as int),
        decreases n - i,
    {
        v.push(s.get_char(i));
        assert(v@ =~= s@.take(i + 1));
        i = i + 1;
    }
    assert(v@ =~= s@);
    v
}

/// The character has the Unicode White_Space property (what
/// `char::is_whitespace` tests).
pub open spec fn is_ws(c: char) -> bool {
    let u = c as u32;
    (0x9 <= u <= 0xd) || u == 0x20 || u == 0x85 || u == 0xa0 || u == 0x1680 || (0x2000 <= u <= 0x200a)
        || u == 0x2028 || u == 0x2029 || u == 0x202f || u == 0x205f || u == 0x3000
}

/// `char::is_whitespace`.
pub fn char_is_ws(c: char) -> (r: bool)
    ensures
        r == is_ws(c),
{
    let u = c as u32;
    (0x9 <= u && u <= 0xd) || u == 0x20 || u == 0x85 || u == 0xa0 || u == 0x1680 || (0x2000 <= u && u <= 0x200a)
        || u == 0x2028 || u == 0x2029 || u == 0x202f || u == 0x205f || u == 0x3000
}

/// The maximal runs of non-whitespace characters of `s`, in order (what
/// `str::split_whitespace` yields).
pub open spec fn tokens(s: Seq<char>) -> Seq<Seq<char>>
    decreases s.len(),
{
    if s.len() == 0 {
        Seq::empty()
    } else {
        let prev = tokens(s.drop_last());
        let c = s.last();
        if is_ws(c) {
            prev
        } else if s.len() >= 2 && !is_ws(s[s.len() - 2]) && prev.len() > 0 {
            prev.update(prev.len() - 1, prev.last().push(c))
        } else {
            prev.push(seq![c])
        }
    }
}

/// The pieces of `s` between the occurrences of `sep` (what `str::split`
/// with a character yields): never empty.
pub open spec fn split_on(s: Seq<char>, sep: char) -> Seq<Seq<char>>
    decreases s.len(),
{
    if s.len() == 0 {
        seq![Seq::empty()]
    } else {
        let prev = split_on(s.drop_last(), sep);
        if s.last() == sep {
            prev.push(Seq::empty())
        } else {
            prev.update(prev.len() - 1, prev.last().push(s.last()))
        }
    }
}

/// Ranges `(start, end)` of `c` name the pieces `p`.
pub open spec fn ranges_name(c: Seq<char>, r: Seq<(usize, usize)>, p: Seq<Seq<char>>) -> bool {
    &&& r.len() == p.len()
    &&& forall|k: int| 0 <= k < r.len() ==> (#[trigger] r[k]).0 <= r[k].1 <= c.len() && c.subrange(r[k].0 as int, r[k].1 as int) == p[k]
}

proof fn lemma_split_on_nonempty(s: Seq<char>, sep: char)
    ensures
        split_on(s, sep).len() >= 1,
    decreases s.len(),
{
    if s.len() > 0 {
        lemma_split_on_nonempty(s.drop_last(), sep);
    }
}

/// Ranges of the whitespace-separated tokens of `c[from..to]`.
pub fn token_ranges(c: &Vec<char>, from: usize, to: usize) -> (r: Vec<(usize, usize)>)
    requires
        from <= to <= c@.len(),
    ensures
        ranges_name(c@, r@, tokens(c@.subrange(from as int, to as int))),
{
    let ghost s = c@.subrange(from as int, to as int);
    let mut r: Vec<(usize, usize)> = Vec::new();
    let mut i: usize = from;
    while i < to
        invariant
            from <= i <= to <= c@.len(),
            s == c@.subrange(from as int, to as int),
            ranges_name(c@, r@, tokens(s.take(i - from))),
            i > from && !is_ws(c@[i - 1]) ==> r@.len() > 0 && r@.last().1 == i,
        decreases to - i,
    {
        let ch = c[i];
        let ghost before = r@;
        let ghost prefix = s.take(i - from + 1);
        proof {
            assert(prefix.drop_last() =~= s.take(i - from));
            assert(prefix.last() == ch);
        }
        if !char_is_ws(ch) {
            if i > from && !char_is_ws(c[i - 1]) {
                let last = r.len() - 1;
                let (a, _) = r[last];
                r.set(last, (a, i + 1));
                proof {
                    assert(prefix[prefix.len() - 2] == c@[i - 1]);
                    let t = tokens(prefix);
                    assert(c@.subrange(a as int, i + 1) =~= c@.subrange(a as int, i as int).push(ch));
                    assert forall|k: int| 0 <= k < r@.len() implies (#[trigger] r@[k]).0 <= r@[k].1 <= c@.len()
                        && c@.subrange(r@[k].0 as int, r@[k].1 as int) == t[k] by {
                        if k < last {
                            assert(r@[k] == before[k]);
                        }
                    }
                }
            } else {
                r.push((i, i + 1));
                proof {
                    assert(c@.subrange(i as int, i + 1) =~= seq![ch]);
                    let t = tokens(prefix);
                    if i > from {
                        assert(prefix[prefix.len() - 2] == c@[i - 1]);
                    }
                    assert forall|k: int| 0 <= k < r@.len() implies (#[trigger] r@[k]).0 <= r@[k].1 <= c@.len()
                        && c@.subrange(r@[k].0 as int, r@[k].1 as int) == t[k] by {
                        if k < before.len() {
                            assert(r@[k] == before[k]);
                        }
                    }
                }
            }
        }
        i = i + 1;
    }
    assert(s.take(to - from) =~= s);
    r
}

/// Ranges of the pieces of `c[from..to]` between occurrences of `sep`.
pub fn split_ranges(c: &Vec<char>, from: usize, to: usize, sep: char) -> (r: Vec<(usize, usize)>)
    requires
        from <= to <= c@.len(),
    ensures
        ranges_name(c@, r@, split_on(c@.subrange(from as int, to as int), sep)),
{
    let ghost s = c@.subrange(from as int, to as int);
    let mut r: Vec<(usize, usize)> = Vec::new();
    r.push((from, from));
    proof {
        assert(s.take(0) =~= Seq::<char>::empty());
        assert(c@.subrange(from as int, from as int) =~= Seq::<char>::empty());
    }
    let mut i: usize = from;
    while i < to
        invariant
            from <= i <= to <= c@.len(),
            s == c@.subrange(from as int, to as int),
            ranges_name(c@, r@, split_on(s.take(i - from), sep)),
            r@.len() >= 1,
            r@.last().1 == i,
        decreases to - i,
    {
        let ch = c[i];
        let ghost before = r@;
        let ghost prefix = s.take(i - from + 1);
        proof {
            assert(prefix.drop_last() =~= s.take(i - from));
            assert(prefix.last() == ch);
        }
        if ch == sep {
            r.push((i + 1, i + 1));
            proof {
                let t = split_on(prefix, sep);
                assert(c@.subrange(i + 1, i + 1) =~= Seq::<char>::empty());
                assert forall|k: int| 0 <= k < r@.len() implies (#[trigger] r@[k]).0 <= r@[k].1 <= c@.len()
                    && c@.subrange(r@[k].0 as int, r@[k].1 as int) == t[k] by {
                    if k < before.len() {
                        assert(r@[k] == before[k]);
                    }
                }
            }
        } else {
            let last = r.len() - 1;
            let (a, _) = r[last];
            r.set(last, (a, i + 1));
            proof {
                let t = split_on(prefix, sep);
                assert(c@.subrange(a as int, i + 1) =~= c@.subrange(a as int, i as int).push(ch));
                assert forall|k: int| 0 <= k < r@.len() implies (#[trigger] r@[k]).0 <= r@[k].1 <= c@.len()
                    && c@.subrange(r@[k].0 as int, r@[k].1 as int) == t[k] by {
                    if k < last {
                        assert(r@[k] == before[k]);
                    }
                }
            }
        }
        i = i + 1;
    }
    assert(s.take(to - from) =~= s);
    r
}

/// The text of characters `c[from..to]`.
pub fn text_of(s: &str, c: &Vec<char>, from: usize, to: usize) -> (r: String)
    requires
        c@ == s@,
        from <= to <= c@.len(),
    ensures
        r@ == c@.subrange(from as int, to as int),
{
    s.substring_char(from, to).to_owned()
}

/// Lexicographic order of character sequences by code point (the order of
/// `str`, which compares UTF-8 bytes).
pub open spec fn seq_lt(a: Seq<char>, b: Seq<char>) -> bool
    decreases a.len(),
{
    if a.len() == 0 {
        b.len() > 0
    } else if b.len() == 0 {
        false
    } else if a[0] != b[0] {
        (a[0] as u32) < (b[0] as u32)
    } else {
        seq_lt(a.drop_first(), b.drop_first())
    }
}

/// `a < b` on text.
pub fn str_lt(a: &str, b: &str) -> (r: bool)
    ensures
        r == seq_lt(a@, b@),
{
    let ca = chars_of(a);
    let cb = chars_of(b);
    let mut i: usize = 0;
    proof {
        assert(a@.skip(0) =~= a@);
        assert(b@.skip(0) =~= b@);
    }
    while i < ca.len() && i < cb.len()
        invariant
            ca@ == a@,
            cb@ == b@,
            i <= ca@.len(),
            i <= cb@.len(),
            ca@.take(i as int) == cb@.take(i as int),
            seq_lt(a@, b@) == seq_lt(a@.skip(i as int), b@.skip(i as int)),
        decreases ca@.len() - i,
    {
        proof {
            assert(a@.skip(i as int)[0] == ca@[i as int]);
            assert(b@.skip(i as int)[0] == cb@[i as int]);
            assert(a@.skip(i as int).drop_first() =~= a@.skip(i + 1));
            assert(b@.skip(i as int).drop_first() =~= b@.skip(i + 1));
        }
        if ca[i] != cb[i] {
            return (ca[i] as u32) < (cb[i] as u32);
        }
        proof {
            assert(ca@.take(i + 1) =~= ca@.take(i as int).push(ca@[i as int]));
            assert(cb@.take(i + 1) =~= cb@.take(i as int).push(cb@[i as int]));
        }
        i = i + 1;
    }
    proof {
        assert(a@.skip(i as int).len() == a@.len() - i);
        assert(b@.skip(i as int).len() == b@.len() - i);
    }
    i >= ca.len() && i < cb.len()
}

/// `seq_lt` is irreflexive and asymmetric, and orders any two distinct
/// sequences.
pub proof fn lemma_seq_lt_total(a: Seq<char>, b: Seq<char>)
    ensures
        !seq_lt(a, a),
        seq_lt(a, b) ==> !seq_lt(b, a),
        a != b ==> seq_lt(a, b) || seq_lt(b, a),
    decreases a.len(),
{
    if a.len() > 0 {
        lemma_seq_lt_total(a.drop_first(), a.drop_first());
        if b.len() > 0 {
            lemma_seq_lt_total(a.drop_first(), b.drop_first());
            vstd::utf8::char_u32_cast(a[0], a[0] as u32);
            vstd::utf8::char_u32_cast(b[0], b[0] as u32);
            if a != b && a[0] == b[0] {
                assert(a.drop_first() != b.drop_first()) by {
                    if a.drop_first() == b.drop_first() {
                        assert(a =~= seq![a[0]] + a.drop_first());
                        assert(b =~= seq![b[0]] + b.drop_first());
                    }
                }
            }
        }
    } else if b.len() == 0 {
        assert(a =~= b);
    }
}

/// `seq_lt` is transitive.
pub proof fn lemma_seq_lt_transitive(a: Seq<char>, b: Seq<char>, c: Seq<char>)
    requires
        seq_lt(a, b),
        seq_lt(b, c),
    ensures
        seq_lt(a, c),
    decreases a.len(),
{
    if a.len() > 0 && b.len() > 0 && c.len() > 0 && a[0] == b[0] && b[0] == c[0] {
        lemma_seq_lt_transitive(a.drop_first(), b.drop_first(), c.drop_first());
    }
}

} // verus!
