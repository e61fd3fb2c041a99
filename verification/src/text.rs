//! Character-level helpers on strings, each with an exact contract over `Seq<char>`.

use vstd::prelude::*;

verus! {

/// `i` is the position of the first occurrence of `c` in `s`.
pub open spec fn is_first_index(s: Seq<char>, c: char, i: int) -> bool {
    &&& 0 <= i < s.len()
    &&& s[i] == c
    &&& forall|j: int| 0 <= j < i ==> s[j] != c
}

/// Splitting at the first occurrence of a separator, as `str::split_once` does.
pub open spec fn split_once(s: Seq<char>, c: char) -> Option<(Seq<char>, Seq<char>)> {
    if exists|i: int| is_first_index(s, c, i) {
        let i = choose|i: int| is_first_index(s, c, i);
        Some((s.take(i), s.skip(i + 1)))
    } else {
        None
    }
}

/// There is at most one first occurrence.
pub proof fn lemma_first_index_unique(s: Seq<char>, c: char, i: int, k: int)
    requires
        is_first_index(s, c, i),
        is_first_index(s, c, k),
    ensures
        i == k,
{
}

/// Any occurrence implies a first occurrence.
pub proof fn lemma_first_index_exists(s: Seq<char>, c: char, k: int)
    requires
        0 <= k < s.len(),
        s[k] == c,
    ensures
        exists|i: int| is_first_index(s, c, i),
    decreases k,
{
    if exists|j: int| 0 <= j < k && s[j] == c {
        let j = choose|j: int| 0 <= j < k && s[j] == c;
        lemma_first_index_exists(s, c, j);
    } else {
        assert(is_first_index(s, c, k));
    }
}

/// `split_once` is `None` exactly when the separator does not occur.
pub proof fn lemma_split_once_none(s: Seq<char>, c: char)
    ensures
        split_once(s, c) is None <==> !s.contains(c),
{
    if s.contains(c) {
        let k = choose|k: int| 0 <= k < s.len() && s[k] == c;
        lemma_first_index_exists(s, c, k);
    }
}

/// Splitting `a + [c] + b` where `a` does not hold `c` gives back `a` and `b`.
pub proof fn lemma_split_once_concat(a: Seq<char>, c: char, b: Seq<char>)
    requires
        !a.contains(c),
    ensures
        split_once(a + seq![c] + b, c) == Some((a, b)),
{
    let s = a + seq![c] + b;
    assert(is_first_index(s, c, a.len() as int)) by {
        assert forall|j: int| 0 <= j < a.len() implies s[j] != c by {
            assert(s[j] == a[j]);
        }
    }
    let i = choose|i: int| is_first_index(s, c, i);
    lemma_first_index_unique(s, c, i, a.len() as int);
    assert(s.take(a.len() as int) =~= a);
    assert(s.skip(a.len() as int + 1) =~= b);
}

/// What `split_once` gives back is the input around the first separator.
pub proof fn lemma_split_once_parts(s: Seq<char>, c: char)
    requires
        split_once(s, c) is Some,
    ensures
        ({
            let (a, b) = split_once(s, c)->0;
            &&& s =~= a + seq![c] + b
            &&& !a.contains(c)
        }),
{
    let i = choose|i: int| is_first_index(s, c, i);
    let (a, b) = split_once(s, c)->0;
    assert(a == s.take(i));
    assert(b == s.skip(i + 1));
    assert(s =~= a + seq![c] + b);
}

/// Trusted: calls `String::push`, whose contract here is that the character is
/// appended at the end of the string, as its documentation says.
#[verifier::external_body]
pub(crate) fn push_char(s: &mut String, c: char)
    ensures
        final(s)@ == old(s)@.push(c),
{
    s.push(c);
}

/// The characters of `s`, in order.
pub fn chars_of(s: &str) -> (v: Vec<char>)
    ensures
        v@ == s@,
{
    let n = s.unicode_len();
    let mut v: Vec<char> = Vec::new();
    let mut i: usize = 0;
    while i < n
        invariant
            n == s@.len(),
            i <= n,
            v@ =~= s@.take(i as int),
        decreases n - i,
    {
        let c = s.get_char(i);
        v.push(c);
        i = i + 1;
    }
    v
}

/// The position of the first `c` in `s`, if any.
pub fn find_char(s: &Vec<char>, c: char) -> (r: Option<usize>)
    ensures
        match r {
            Some(i) => is_first_index(s@, c, i as int),
            None => !s@.contains(c),
        },
{
    let mut i: usize = 0;
    while i < s.len()
        invariant
            i <= s.len(),
            forall|j: int| 0 <= j < i ==> s@[j] != c,
        decreases s.len() - i,
    {
        if s[i] == c {
            return Some(i);
        }
        i = i + 1;
    }
    None
}

/// `str::split_once` on a single character.
pub fn split_once_char(s: &str, c: char) -> (r: Option<(String, String)>)
    ensures
        match r {
            Some((a, b)) => split_once(s@, c) == Some((a@, b@)),
            None => split_once(s@, c) is None,
        },
{
    let chars = chars_of(s);
    match find_char(&chars, c) {
        Some(i) => {
            assert(i < chars.len());
            let a = s.substring_char(0, i).to_owned();
            let b = s.substring_char(i + 1, chars.len()).to_owned();
            proof {
                let k = choose|k: int| is_first_index(s@, c, k);
                lemma_first_index_unique(s@, c, k, i as int);
            }
            Some((a, b))
        },
        None => {
            proof {
                lemma_split_once_none(s@, c);
            }
            None
        },
    }
}


/// `i` is where `a` first differs from `b` in a way that puts `a` first:
/// they agree before `i`, and there `a` ends or holds a smaller character.
pub open spec fn lex_less_at(a: Seq<char>, b: Seq<char>, i: int) -> bool {
    &&& 0 <= i <= a.len()
    &&& i < b.len()
    &&& forall|j: int| 0 <= j < i ==> a[j] == b[j]
    &&& (i == a.len() || (a[i] as int) < (b[i] as int))
}

/// Lexicographic order on characters, which is the order of `String`'s `Ord`
/// (UTF-8 preserves the order of code points).
pub open spec fn lex_less(a: Seq<char>, b: Seq<char>) -> bool {
    exists|i: int| lex_less_at(a, b, i)
}

/// No string comes before itself.
pub proof fn lemma_lex_irreflexive(a: Seq<char>)
    ensures
        !lex_less(a, a),
{
}

/// Two different strings are ordered one way or the other.
pub proof fn lemma_lex_total(a: Seq<char>, b: Seq<char>)
    requires
        a != b,
    ensures
        lex_less(a, b) || lex_less(b, a),
{
    if exists|i: int| 0 <= i < a.len() && i < b.len() && a[i] != b[i] {
        let k = choose|i: int| 0 <= i < a.len() && i < b.len() && a[i] != b[i];
        lemma_first_difference(a, b, k);
    } else {
        if a.len() < b.len() {
            assert(lex_less_at(a, b, a.len() as int));
        } else if b.len() < a.len() {
            assert(lex_less_at(b, a, b.len() as int));
        } else {
            assert(a =~= b);
        }
    }
}

proof fn lemma_first_difference(a: Seq<char>, b: Seq<char>, k: int)
    requires
        0 <= k < a.len(),
        k < b.len(),
        a[k] != b[k],
    ensures
        lex_less(a, b) || lex_less(b, a),
    decreases k,
{
    if exists|j: int| 0 <= j < k && a[j] != b[j] {
        let j = choose|j: int| 0 <= j < k && a[j] != b[j];
        lemma_first_difference(a, b, j);
    } else {
        if (a[k] as int) < (b[k] as int) {
            assert(lex_less_at(a, b, k));
        } else {
            assert((b[k] as int) != (a[k] as int));
            assert(lex_less_at(b, a, k));
        }
    }
}

/// The order is asymmetric.
pub proof fn lemma_lex_asymmetric(a: Seq<char>, b: Seq<char>)
    requires
        lex_less(a, b),
    ensures
        !lex_less(b, a),
{
    let i = choose|i: int| lex_less_at(a, b, i);
    if lex_less(b, a) {
        let k = choose|k: int| lex_less_at(b, a, k);
        if i < k {
            assert(a[i] == b[i]);
        } else if k < i {
            assert(a[k] == b[k]);
        }
    }
}

/// The order is transitive.
pub proof fn lemma_lex_transitive(a: Seq<char>, b: Seq<char>, c: Seq<char>)
    requires
        lex_less(a, b),
        lex_less(b, c),
    ensures
        lex_less(a, c),
{
    let i = choose|i: int| lex_less_at(a, b, i);
    let k = choose|k: int| lex_less_at(b, c, k);
    if i <= k {
        if i < k {
            assert(i < c.len());
            assert(i == a.len() || (a[i] as int) < (c[i] as int)) by {
                if i < a.len() {
                    assert(b[i] == c[i]);
                }
            }
        }
        assert(lex_less_at(a, c, i));
    } else {
        assert(k < a.len()) by {
            assert(k < i);
        }
        assert(a[k] == b[k]);
        assert(lex_less_at(a, c, k));
    }
}

/// Compares two strings: `Less`, `Equal` or `Greater` by [`lex_less`].
pub fn compare_str(a: &str, b: &str) -> (r: StrOrder)
    ensures
        r == StrOrder::Less <==> lex_less(a@, b@),
        r == StrOrder::Equal <==> a@ == b@,
        r == StrOrder::Greater <==> lex_less(b@, a@),
{
    let x = chars_of(a);
    let y = chars_of(b);
    let mut i: usize = 0;
    while i < x.len() && i < y.len()
        invariant
            x@ == a@,
            y@ == b@,
            i <= x.len(),
            i <= y.len(),
            forall|j: int| 0 <= j < i ==> x@[j] == y@[j],
        decreases x.len() - i,
    {
        let cx = x[i];
        let cy = y[i];
        if cx < cy {
            assert(lex_less_at(a@, b@, i as int));
            proof { lemma_lex_asymmetric(a@, b@); }
            return StrOrder::Less;
        }
        if cy < cx {
            assert(lex_less_at(b@, a@, i as int));
            proof { lemma_lex_asymmetric(b@, a@); }
            return StrOrder::Greater;
        }
        i = i + 1;
    }
    if x.len() < y.len() {
        assert(lex_less_at(a@, b@, i as int));
        proof { lemma_lex_asymmetric(a@, b@); }
        StrOrder::Less
    } else if y.len() < x.len() {
        assert(lex_less_at(b@, a@, i as int));
        proof { lemma_lex_asymmetric(b@, a@); }
        StrOrder::Greater
    } else {
        assert(a@ =~= b@);
        proof { lemma_lex_irreflexive(a@); }
        StrOrder::Equal
    }
}

/// The outcome of comparing two strings.
#[derive(Debug, Clone, Copy, PartialEq, Eq, Structural)]
pub enum StrOrder {
    Less,
    Equal,
    Greater,
}

/// Equality of two strings, character by character.
pub fn str_eq(a: &str, b: &str) -> (r: bool)
    ensures
        r == (a@ == b@),
{
    let x = chars_of(a);
    let y = chars_of(b);
    if x.len() != y.len() {
        return false;
    }
    let mut i: usize = 0;
    while i < x.len()
        invariant
            x@ == a@,
            y@ == b@,
            x.len() == y.len(),
            i <= x.len(),
            forall|j: int| 0 <= j < i ==> x@[j] == y@[j],
        decreases x.len() - i,
    {
        if x[i] != y[i] {
            return false;
        }
        i = i + 1;
    }
    assert(a@ =~= b@);
    true
}

/// `s` with every `c` replaced by `r`.
pub open spec fn replace_char(s: Seq<char>, c: char, r: Seq<char>) -> Seq<char>
    decreases s.len(),
{
    if s.len() == 0 {
        Seq::empty()
    } else {
        replace_char(s.drop_last(), c, r) + (if s.last() == c {
            r
        } else {
            seq![s.last()]
        })
    }
}

/// `s` wrapped in single quotes, with every `'` in it replaced by `r`.
pub fn single_quoted(s: &str, r: &str) -> (out: String)
    ensures
        out@ == seq!['\''] + replace_char(s@, '\'', r@) + seq!['\''],
{
    let chars = chars_of(s);
    let mut out = String::new();
    push_char(&mut out, '\'');
    let mut i: usize = 0;
    while i < chars.len()
        invariant
            chars@ == s@,
            i <= chars.len(),
            out@ == seq!['\''] + replace_char(s@.take(i as int), '\'', r@),
        decreases chars.len() - i,
    {
        let c = chars[i];
        if c == '\'' {
            out.append(r);
        } else {
            push_char(&mut out, c);
        }
        assert(s@.take(i + 1).drop_last() =~= s@.take(i as int));
        i = i + 1;
    }
    assert(s@.take(chars.len() as int) =~= s@);
    push_char(&mut out, '\'');
    out
}


/// `s` starts with `t`.
pub open spec fn starts_with(s: Seq<char>, t: Seq<char>) -> bool {
    t.len() <= s.len() && s.take(t.len() as int) == t
}

/// `s` ends with `t`.
pub open spec fn ends_with(s: Seq<char>, t: Seq<char>) -> bool {
    t.len() <= s.len() && s.skip(s.len() - t.len()) == t
}

/// `t` occurs in `s` at position `i`.
pub open spec fn occurs_at(s: Seq<char>, t: Seq<char>, i: int) -> bool {
    0 <= i && i + t.len() <= s.len() && s.subrange(i, i + t.len()) == t
}

/// `t` occurs somewhere in `s`.
pub open spec fn contains_str(s: Seq<char>, t: Seq<char>) -> bool {
    exists|i: int| occurs_at(s, t, i)
}

/// Whether `t` occurs in `s` at position `i` (checked character by character).
fn matches_at(s: &Vec<char>, t: &Vec<char>, i: usize) -> (b: bool)
    requires
        i + t.len() <= s.len(),
    ensures
        b == (s@.subrange(i as int, i + t.len()) == t@),
{
    let mut j: usize = 0;
    while j < t.len()
        invariant
            i + t.len() <= s.len(),
            j <= t.len(),
            forall|k: int| 0 <= k < j ==> s@[i + k] == t@[k],
        decreases t.len() - j,
    {
        if s[i + j] != t[j] {
            assert(s@.subrange(i as int, i + t.len())[j as int] != t@[j as int]);
            return false;
        }
        j = j + 1;
    }
    assert(s@.subrange(i as int, i + t.len()) =~= t@);
    true
}

/// Whether `s` starts with `t`.
pub fn str_starts_with(s: &str, t: &str) -> (b: bool)
    ensures
        b == starts_with(s@, t@),
{
    let x = chars_of(s);
    let y = chars_of(t);
    if y.len() > x.len() {
        return false;
    }
    let r = matches_at(&x, &y, 0);
    assert(x@.subrange(0, y.len() as int) =~= x@.take(y.len() as int));
    r
}

/// Whether `s` ends with `t`.
pub fn str_ends_with(s: &str, t: &str) -> (b: bool)
    ensures
        b == ends_with(s@, t@),
{
    let x = chars_of(s);
    let y = chars_of(t);
    if y.len() > x.len() {
        return false;
    }
    let r = matches_at(&x, &y, x.len() - y.len());
    assert(x@.subrange(x.len() - y.len(), x.len() as int) =~= x@.skip(x.len() - y.len()));
    r
}

/// Whether `t` occurs in `s`.
pub fn str_contains(s: &str, t: &str) -> (b: bool)
    ensures
        b == contains_str(s@, t@),
{
    let x = chars_of(s);
    let y = chars_of(t);
    if y.len() > x.len() {
        return false;
    }
    let n = x.len() - y.len();
    let mut i: usize = 0;
    loop
        invariant
            x@ == s@,
            y@ == t@,
            n == x.len() - y.len(),
            i <= n,
            forall|k: int| 0 <= k < i ==> !occurs_at(s@, t@, k),
        decreases n - i,
    {
        if matches_at(&x, &y, i) {
            assert(occurs_at(s@, t@, i as int));
            return true;
        }
        if i == n {
            assert forall|k: int| !occurs_at(s@, t@, k) by {
                if 0 <= k <= i {
                }
            }
            return false;
        }
        i = i + 1;
    }
}

/// Whether the character `c` occurs in `s`.
pub fn str_has_char(s: &str, c: char) -> (b: bool)
    ensures
        b == s@.contains(c),
{
    let x = chars_of(s);
    find_char(&x, c).is_some()
}

/// `s` without its leading run of the character `c`.
pub open spec fn trim_start(s: Seq<char>, c: char) -> Seq<char>
    decreases s.len(),
{
    if s.len() > 0 && s[0] == c {
        trim_start(s.drop_first(), c)
    } else {
        s
    }
}

/// `str::trim_start_matches` with a single character.
pub fn trim_start_char(s: &str, c: char) -> (r: String)
    ensures
        r@ == trim_start(s@, c),
{
    let x = chars_of(s);
    let mut i: usize = 0;
    assert(s@.skip(0) =~= s@);
    while i < x.len() && x[i] == c
        invariant
            x@ == s@,
            i <= x.len(),
            trim_start(s@.skip(i as int), c) == trim_start(s@, c),
        decreases x.len() - i,
    {
        assert(s@.skip(i as int).drop_first() =~= s@.skip(i + 1));
        i = i + 1;
    }
    s.substring_char(i, x.len()).to_owned()
}

/// The code of a character with ASCII capitals made small, as `to_ascii_lowercase` does.
pub open spec fn lower_code(c: char) -> int {
    if 65 <= (c as int) <= 90 {
        (c as int) + 32
    } else {
        c as int
    }
}

/// The codes of `s` with ASCII capitals made small.
pub open spec fn lowered(s: Seq<char>) -> Seq<int> {
    s.map_values(|c: char| lower_code(c))
}

/// The codes of `s`.
pub open spec fn codes(s: Seq<char>) -> Seq<int> {
    s.map_values(|c: char| c as int)
}

/// The character with an ASCII capital made small, as `char::to_ascii_lowercase`
/// gives it: `'A'..='Z'` become `'a'..='z'`; every other character is unchanged.
fn ascii_lowercase(c: char) -> (r: char)
    ensures
        r as int == lower_code(c),
{
    if 'A' <= c && c <= 'Z' {
        ((c as u8) + 32) as char
    } else {
        c
    }
}

/// Whether `s`, with ASCII capitals made small, starts with the codes of `t`
/// (and, when `whole`, is exactly them).
pub fn lowered_starts_with(s: &Vec<char>, t: &str, whole: bool) -> (b: bool)
    ensures
        b == (if whole {
            lowered(s@) == codes(t@)
        } else {
            t@.len() <= s@.len() && lowered(s@).take(t@.len() as int) == codes(t@)
        }),
{
    let y = chars_of(t);
    if y.len() > s.len() || (whole && y.len() != s.len()) {
        if whole {
            assert(lowered(s@).len() != codes(t@).len());
        }
        return false;
    }
    let mut j: usize = 0;
    while j < y.len()
        invariant
            y@ == t@,
            y.len() <= s.len(),
            whole ==> y.len() == s.len(),
            j <= y.len(),
            forall|k: int| 0 <= k < j ==> lower_code(s@[k]) == (y@[k] as int),
        decreases y.len() - j,
    {
        let lc = ascii_lowercase(s[j]);
        if lc != y[j] {
            assert(lowered(s@)[j as int] != codes(t@)[j as int]);
            if !whole {
                assert(lowered(s@).take(t@.len() as int)[j as int] != codes(t@)[j as int]);
            }
            return false;
        }
        j = j + 1;
    }
    if whole {
        assert(lowered(s@) =~= codes(t@));
    } else {
        assert(lowered(s@).take(t@.len() as int) =~= codes(t@));
    }
    true
}


/// The characters with the Unicode `White_Space` property, which is what
/// `char::is_whitespace` and `str::trim` go by.
pub open spec fn is_white_space(c: char) -> bool {
    let n = c as int;
    ||| 0x09 <= n <= 0x0D
    ||| n == 0x20
    ||| n == 0x85
    ||| n == 0xA0
    ||| n == 0x1680
    ||| 0x2000 <= n <= 0x200A
    ||| n == 0x2028
    ||| n == 0x2029
    ||| n == 0x202F
    ||| n == 0x205F
    ||| n == 0x3000
}

/// Whether a character is white space.
pub fn char_is_white_space(c: char) -> (b: bool)
    ensures
        b == is_white_space(c),
{
    ('\u{9}' <= c && c <= '\u{d}') || c == ' ' || c == '\u{85}' || c == '\u{a0}' || c == '\u{1680}'
        || ('\u{2000}' <= c && c <= '\u{200a}') || c == '\u{2028}' || c == '\u{2029}' || c == '\u{202f}'
        || c == '\u{205f}' || c == '\u{3000}'
}

/// Whether `s` is only white space, as `s.trim().is_empty()` tells.
pub fn is_blank(s: &str) -> (b: bool)
    ensures
        b == forall|i: int| 0 <= i < s@.len() ==> is_white_space(#[trigger] s@[i]),
{
    let x = chars_of(s);
    let mut i: usize = 0;
    while i < x.len()
        invariant
            x@ == s@,
            i <= x.len(),
            forall|j: int| 0 <= j < i ==> is_white_space(#[trigger] s@[j]),
        decreases x.len() - i,
    {
        if !char_is_white_space(x[i]) {
            return false;
        }
        i = i + 1;
    }
    true
}


/// Replacing in a concatenation is replacing in each part.
pub proof fn lemma_replace_char_concat(a: Seq<char>, b: Seq<char>, c: char, r: Seq<char>)
    ensures
        replace_char(a + b, c, r) == replace_char(a, c, r) + replace_char(b, c, r),
    decreases b.len(),
{
    if b.len() == 0 {
        assert(a + b =~= a);
        assert(replace_char(a, c, r) + Seq::<char>::empty() =~= replace_char(a, c, r));
    } else {
        assert((a + b).drop_last() =~= a + b.drop_last());
        assert((a + b).last() == b.last());
        lemma_replace_char_concat(a, b.drop_last(), c, r);
        assert(replace_char(a, c, r) + replace_char(b.drop_last(), c, r) + (if b.last() == c { r } else { seq![b.last()] })
            =~= replace_char(a, c, r) + (replace_char(b.drop_last(), c, r) + (if b.last() == c { r } else { seq![b.last()] })));
    }
}

/// Replacing in a non-empty sequence: the first character's replacement, then the rest's.
pub proof fn lemma_replace_char_first(v: Seq<char>, c: char, r: Seq<char>)
    requires
        v.len() > 0,
    ensures
        replace_char(v, c, r) == (if v[0] == c { r } else { seq![v[0]] }) + replace_char(v.drop_first(), c, r),
{
    assert(v =~= seq![v[0]] + v.drop_first());
    lemma_replace_char_concat(seq![v[0]], v.drop_first(), c, r);
    let one = seq![v[0]];
    assert(one.drop_last() =~= Seq::<char>::empty());
    assert(replace_char(one.drop_last(), c, r) =~= Seq::<char>::empty());
    assert(one.last() == v[0]);
    assert(replace_char(one, c, r) == replace_char(one.drop_last(), c, r) + (if one.last() == c { r } else { seq![one.last()] }));
    assert(replace_char(one, c, r) =~= (if v[0] == c { r } else { seq![v[0]] }));
}

} // verus!
