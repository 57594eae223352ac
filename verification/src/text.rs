use vstd::prelude::*;
use vstd::slice::slice_subrange;
use vstd::string::StrSliceExecFns;

verus! {

/// What is taken off both ends of a field.
#[derive(Debug, Clone, Copy, PartialEq, Eq, Structural)]
pub enum Strip {
    /// White space, as Unicode defines it.
    Space,
    /// The double quote.
    Quote,
}

/// The characters with Unicode's `White_Space` property.
pub open spec fn is_space(c: char) -> bool {
    ||| '\u{9}' <= c <= '\u{d}'
    ||| c == ' '
    ||| c == '\u{85}'
    ||| c == '\u{a0}'
    ||| c == '\u{1680}'
    ||| '\u{2000}' <= c <= '\u{200a}'
    ||| c == '\u{2028}'
    ||| c == '\u{2029}'
    ||| c == '\u{202f}'
    ||| c == '\u{205f}'
    ||| c == '\u{3000}'
}

pub open spec fn strips(kind: Strip, c: char) -> bool {
    match kind {
        Strip::Space => is_space(c),
        Strip::Quote => c == '"',
    }
}

/// Number of characters at the front of `s` that `kind` takes off.
pub open spec fn lead(s: Seq<char>, kind: Strip) -> int
    decreases s.len(),
{
    if s.len() == 0 || !strips(kind, s[0]) {
        0
    } else {
        1 + lead(s.drop_first(), kind)
    }
}

/// Number of characters at the back of `s` that `kind` takes off.
pub open spec fn trail(s: Seq<char>, kind: Strip) -> int
    decreases s.len(),
{
    if s.len() == 0 || !strips(kind, s.last()) {
        0
    } else {
        1 + trail(s.drop_last(), kind)
    }
}

/// `s` without the characters of `kind` at its two ends.
pub open spec fn stripped(s: Seq<char>, kind: Strip) -> Seq<char> {
    if lead(s, kind) >= s.len() {
        Seq::empty()
    } else {
        s.subrange(lead(s, kind), s.len() - trail(s, kind))
    }
}

/// `s` begins with `p`.
pub open spec fn has_prefix(s: Seq<char>, p: Seq<char>) -> bool {
    p.len() <= s.len() && s.subrange(0, p.len() as int) == p
}

/// The letter in lower case where `c` is one of `A` to `Z`, else `c`.
pub open spec fn ascii_lower(c: char) -> char {
    if 'A' <= c <= 'Z' {
        ((c as u8) + 32) as char
    } else {
        c
    }
}

/// `s` ends with `suffix` once its letters `A` to `Z` are put in lower case.
pub open spec fn ends_with_folded(s: Seq<char>, suffix: Seq<char>) -> bool {
    &&& suffix.len() <= s.len()
    &&& forall|i: int|
        0 <= i < suffix.len() ==> ascii_lower(#[trigger] s[s.len() - suffix.len() + i])
            == suffix[i]
}

/// `s` without its commas.
pub open spec fn without_commas(s: Seq<char>) -> Seq<char>
    decreases s.len(),
{
    if s.len() == 0 {
        Seq::empty()
    } else if s.last() == ',' {
        without_commas(s.drop_last())
    } else {
        without_commas(s.drop_last()).push(s.last())
    }
}

proof fn lemma_lead(s: Seq<char>, kind: Strip, a: int)
    requires
        0 <= a <= s.len(),
        forall|i: int| 0 <= i < a ==> strips(kind, #[trigger] s[i]),
        a == s.len() || !strips(kind, s[a]),
    ensures
        lead(s, kind) == a,
    decreases a,
{
    if a > 0 {
        let t = s.drop_first();
        assert forall|i: int| 0 <= i < a - 1 implies strips(kind, #[trigger] t[i]) by {
            assert(t[i] == s[i + 1]);
        }
        lemma_lead(t, kind, a - 1);
    }
}

proof fn lemma_trail(s: Seq<char>, kind: Strip, b: int)
    requires
        0 <= b <= s.len(),
        forall|i: int| b <= i < s.len() ==> strips(kind, #[trigger] s[i]),
        b == 0 || !strips(kind, s[b - 1]),
    ensures
        trail(s, kind) == s.len() - b,
    decreases s.len() - b,
{
    if b < s.len() {
        let t = s.drop_last();
        assert forall|i: int| b <= i < t.len() implies strips(kind, #[trigger] t[i]) by {
            assert(t[i] == s[i]);
        }
        lemma_trail(t, kind, b);
    }
}

fn is_stripped(kind: Strip, c: char) -> (r: bool)
    ensures
        r == strips(kind, c),
{
    match kind {
        Strip::Space => {
            ('\u{9}' <= c && c <= '\u{d}') || c == ' ' || c == '\u{85}' || c == '\u{a0}' || c
                == '\u{1680}' || ('\u{2000}' <= c && c <= '\u{200a}') || c == '\u{2028}' || c
                == '\u{2029}' || c == '\u{202f}' || c == '\u{205f}' || c == '\u{3000}'
        },
        Strip::Quote => c == '"',
    }
}

/// Takes the characters of `kind` off both ends of `text`.
pub fn strip(text: &[char], kind: Strip) -> (r: &[char])
    ensures
        r@ == stripped(text@, kind),
{
    let n: usize = text.len();
    let mut a: usize = 0;
    while a < n && is_stripped(kind, text[a])
        invariant
            a <= n,
            n == text@.len(),
            forall|i: int| 0 <= i < a ==> strips(kind, #[trigger] text@[i]),
        decreases n - a,
    {
        a = a + 1;
    }
    proof {
        lemma_lead(text@, kind, a as int);
    }
    if a == n {
        let r = slice_subrange(text, n, n);
        assert(r@ =~= Seq::<char>::empty());
        return r;
    }
    let mut b: usize = n;
    while b > a && is_stripped(kind, text[b - 1])
        invariant
            a < n,
            a <= b <= n,
            n == text@.len(),
            !strips(kind, text@[a as int]),
            forall|i: int| b <= i < n ==> strips(kind, #[trigger] text@[i]),
        decreases b,
    {
        b = b - 1;
    }
    proof {
        lemma_trail(text@, kind, b as int);
    }
    slice_subrange(text, a, b)
}

/// Whether `text` begins with `prefix`.
pub fn starts_with(text: &[char], prefix: &str) -> (r: bool)
    ensures
        r == has_prefix(text@, prefix@),
{
    let m: usize = prefix.unicode_len();
    if m > text.len() {
        return false;
    }
    let mut i: usize = 0;
    while i < m
        invariant
            i <= m,
            m == prefix@.len(),
            m <= text@.len(),
            forall|k: int| 0 <= k < i ==> text@[k] == prefix@[k],
        decreases m - i,
    {
        if text[i] != prefix.get_char(i) {
            assert(text@.subrange(0, m as int)[i as int] != prefix@[i as int]);
            return false;
        }
        i = i + 1;
    }
    assert(text@.subrange(0, m as int) =~= prefix@);
    true
}

fn lower_of(c: char) -> (r: char)
    ensures
        r == ascii_lower(c),
{
    if 'A' <= c && c <= 'Z' {
        ((c as u8) + 32) as char
    } else {
        c
    }
}

/// Whether `name` ends with `suffix`, the case of the letters `A` to `Z` in
/// `name` put aside.
pub fn ends_with_ignoring_case(name: &str, suffix: &str) -> (r: bool)
    ensures
        r == ends_with_folded(name@, suffix@),
{
    let n: usize = name.unicode_len();
    let m: usize = suffix.unicode_len();
    if m > n {
        return false;
    }
    let mut i: usize = 0;
    while i < m
        invariant
            i <= m,
            m <= n,
            n == name@.len(),
            m == suffix@.len(),
            forall|k: int| 0 <= k < i ==> ascii_lower(#[trigger] name@[n - m + k]) == suffix@[k],
        decreases m - i,
    {
        if lower_of(name.get_char(n - m + i)) != suffix.get_char(i) {
            return false;
        }
        i = i + 1;
    }
    true
}

pub(crate) fn drop_commas(text: &[char]) -> (r: Vec<char>)
    ensures
        r@ == without_commas(text@),
{
    let n: usize = text.len();
    let mut out: Vec<char> = Vec::new();
    let mut i: usize = 0;
    while i < n
        invariant
            i <= n,
            n == text@.len(),
            out@ == without_commas(text@.take(i as int)),
        decreases n - i,
    {
        proof {
            let now = text@.take(i as int + 1);
            assert(now.drop_last() == text@.take(i as int));
            assert(now.last() == text@[i as int]);
        }
        if text[i] != ',' {
            out.push(text[i]);
        }
        i = i + 1;
    }
    assert(text@.take(n as int) == text@);
    out
}

} // verus!
