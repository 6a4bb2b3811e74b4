use vstd::prelude::*;

verus! {

/// The characters with Unicode's White_Space property.
pub open spec fn is_space_spec(c: char) -> bool {
    ('\u{9}' <= c && c <= '\u{D}') || c == ' ' || c == '\u{85}' || c == '\u{A0}' || c
        == '\u{1680}' || ('\u{2000}' <= c && c <= '\u{200A}') || c == '\u{2028}' || c
        == '\u{2029}' || c == '\u{202F}' || c == '\u{205F}' || c == '\u{3000}'
}

pub fn is_space(c: char) -> (r: bool)
    ensures
        r == is_space_spec(c),
{
    ('\u{9}' <= c && c <= '\u{D}') || c == ' ' || c == '\u{85}' || c == '\u{A0}' || c
        == '\u{1680}' || ('\u{2000}' <= c && c <= '\u{200A}') || c == '\u{2028}' || c
        == '\u{2029}' || c == '\u{202F}' || c == '\u{205F}' || c == '\u{3000}'
}

/// `s` without its leading white space.
pub open spec fn trim_front(s: Seq<char>) -> Seq<char>
    decreases s.len(),
{
    if s.len() > 0 && is_space_spec(s[0]) {
        trim_front(s.drop_first())
    } else {
        s
    }
}

/// `s` without its trailing white space.
pub open spec fn trim_back(s: Seq<char>) -> Seq<char>
    decreases s.len(),
{
    if s.len() > 0 && is_space_spec(s.last()) {
        trim_back(s.drop_last())
    } else {
        s
    }
}

pub open spec fn trimmed(s: Seq<char>) -> Seq<char> {
    trim_back(trim_front(s))
}

proof fn lemma_trim_front(s: Seq<char>, a: int)
    requires
        0 <= a <= s.len(),
        forall|i: int| 0 <= i < a ==> is_space_spec(#[trigger] s[i]),
        a == s.len() || !is_space_spec(s[a]),
    ensures
        trim_front(s) == s.subrange(a, s.len() as int),
    decreases a,
{
    if a == 0 {
        assert(s.subrange(0, s.len() as int) =~= s);
    } else {
        let t = s.drop_first();
        assert forall|i: int| 0 <= i < a - 1 implies is_space_spec(#[trigger] t[i]) by {
            assert(t[i] == s[i + 1]);
        }
        lemma_trim_front(t, a - 1);
        assert(t.subrange(a - 1, t.len() as int) =~= s.subrange(a, s.len() as int));
    }
}

proof fn lemma_trim_back(s: Seq<char>, b: int)
    requires
        0 <= b <= s.len(),
        forall|i: int| b <= i < s.len() ==> is_space_spec(#[trigger] s[i]),
        b == 0 || !is_space_spec(s[b - 1]),
    ensures
        trim_back(s) == s.subrange(0, b),
    decreases s.len() - b,
{
    if b == s.len() {
        assert(s.subrange(0, b) =~= s);
    } else {
        let t = s.drop_last();
        assert forall|i: int| b <= i < t.len() implies is_space_spec(#[trigger] t[i]) by {
            assert(t[i] == s[i]);
        }
        lemma_trim_back(t, b);
        assert(t.subrange(0, b) =~= s.subrange(0, b));
    }
}

/// Removes leading and trailing white space.
pub fn trim(s: &[char]) -> (r: Vec<char>)
    ensures
        r@ == trimmed(s@),
{
    let n = s.len();
    let mut a: usize = 0;
    while a < n && is_space(s[a])
        invariant
            a <= n,
            n == s@.len(),
            forall|i: int| 0 <= i < a ==> is_space_spec(#[trigger] s@[i]),
        decreases n - a,
    {
        a = a + 1;
    }
    let mut b: usize = n;
    while b > a && is_space(s[b - 1])
        invariant
            a <= b <= n,
            n == s@.len(),
            forall|i: int| b <= i < n ==> is_space_spec(#[trigger] s@[i]),
        decreases b,
    {
        b = b - 1;
    }
    proof {
        lemma_trim_front(s@, a as int);
        let f = s@.subrange(a as int, n as int);
        assert forall|i: int| b - a <= i < f.len() implies is_space_spec(#[trigger] f[i]) by {
            assert(f[i] == s@[i + a]);
        }
        if b > a {
            assert(f[b - a - 1] == s@[b - 1]);
        }
        lemma_trim_back(f, b - a);
        assert(f.subrange(0, b - a) =~= s@.subrange(a as int, b as int));
    }
    let mut r: Vec<char> = Vec::new();
    let mut i: usize = a;
    while i < b
        invariant
            a <= i <= b <= n,
            n == s@.len(),
            r@ == s@.subrange(a as int, i as int),
        decreases b - i,
    {
        r.push(s[i]);
        i = i + 1;
        assert(r@ =~= s@.subrange(a as int, i as int));
    }
    r
}

pub open spec fn has_prefix(s: Seq<char>, p: Seq<char>) -> bool {
    p.len() <= s.len() && s.subrange(0, p.len() as int) == p
}

pub open spec fn has_suffix(s: Seq<char>, p: Seq<char>) -> bool {
    p.len() <= s.len() && s.subrange(s.len() - p.len(), s.len() as int) == p
}

pub fn starts_with(s: &[char], p: &[char]) -> (r: bool)
    ensures
        r == has_prefix(s@, p@),
{
    if p.len() > s.len() {
        return false;
    }
    let mut i: usize = 0;
    while i < p.len()
        invariant
            i <= p@.len() <= s@.len(),
            forall|j: int| 0 <= j < i ==> s@[j] == p@[j],
        decreases p@.len() - i,
    {
        if s[i] != p[i] {
            assert(s@.subrange(0, p@.len() as int)[i as int] != p@[i as int]);
            return false;
        }
        i = i + 1;
    }
    assert(s@.subrange(0, p@.len() as int) =~= p@);
    true
}

/// Whether `s` ends with the character `c`.
pub fn ends_with_char(s: &[char], c: char) -> (r: bool)
    ensures
        r == has_suffix(s@, seq![c]),
{
    if s.len() == 0 {
        return false;
    }
    let last = s[s.len() - 1];
    let ghost t = s@.subrange(s@.len() - 1, s@.len() as int);
    assert(t[0] == last);
    if last == c {
        assert(t =~= seq![c]);
        true
    } else {
        assert(t[0] != seq![c][0]);
        false
    }
}

/// The pieces of `s` between occurrences of `sep`, with the separators
/// left out: `n` separators give `n + 1` pieces.
pub open spec fn split_acc(s: Seq<char>, sep: char) -> (Seq<Seq<char>>, Seq<char>)
    decreases s.len(),
{
    if s.len() == 0 {
        (Seq::empty(), Seq::empty())
    } else {
        let (done, cur) = split_acc(s.drop_last(), sep);
        if s.last() == sep {
            (done.push(cur), Seq::empty())
        } else {
            (done, cur.push(s.last()))
        }
    }
}

pub open spec fn split_spec(s: Seq<char>, sep: char) -> Seq<Seq<char>> {
    split_acc(s, sep).0.push(split_acc(s, sep).1)
}

/// Splits `s` at each occurrence of `sep`.
pub fn split_on(s: &[char], sep: char) -> (r: Vec<Vec<char>>)
    ensures
        r@.len() == split_spec(s@, sep).len(),
        forall|k: int| 0 <= k < r@.len() ==> #[trigger] r@[k]@ == split_spec(s@, sep)[k],
{
    let mut done: Vec<Vec<char>> = Vec::new();
    let mut cur: Vec<char> = Vec::new();
    let mut i: usize = 0;
    while i < s.len()
        invariant
            i <= s@.len(),
            done@.len() == split_acc(s@.subrange(0, i as int), sep).0.len(),
            forall|k: int|
                0 <= k < done@.len() ==> #[trigger] done@[k]@ == split_acc(
                    s@.subrange(0, i as int),
                    sep,
                ).0[k],
            cur@ == split_acc(s@.subrange(0, i as int), sep).1,
        decreases s@.len() - i,
    {
        assert(s@.subrange(0, i + 1).drop_last() =~= s@.subrange(0, i as int));
        let c = s[i];
        if c == sep {
            done.push(cur);
            cur = Vec::new();
        } else {
            cur.push(c);
        }
        i = i + 1;
    }
    assert(s@.subrange(0, i as int) =~= s@);
    done.push(cur);
    done
}

pub uninterp spec fn is_upper(c: char) -> bool;

/// Relies on `char::is_uppercase`: whether `c` has Unicode's Uppercase property.
#[verifier::external_body]
pub(crate) fn is_uppercase(c: char) -> (r: bool)
    ensures
        r == is_upper(c),
{
    c.is_uppercase()
}

/// Relies on `str::chars`: the characters of `s`, in order.
#[verifier::external_body]
pub(crate) fn chars_of(s: &str) -> (r: Vec<char>)
    ensures
        r@ == s@,
{
    s.chars().collect()
}

/// Relies on `String`'s `FromIterator<char>`: the string of the given characters.
#[verifier::external_body]
pub(crate) fn string_of(cs: &[char]) -> (r: String)
    ensures
        r@ == cs@,
{
    cs.iter().collect()
}

} // verus!
