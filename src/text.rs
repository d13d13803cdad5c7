//! Small verified helpers on text.
use vstd::prelude::*;
use vstd::string::*;

verus! {

/// The characters that Unicode gives the `White_Space` property.
pub open spec fn spec_is_white(c: char) -> bool {
    c == ' ' || ('\t' <= c && c <= '\r') || c == '\u{85}' || c == '\u{a0}' || c == '\u{1680}'
        || ('\u{2000}' <= c && c <= '\u{200a}') || c == '\u{2028}' || c == '\u{2029}'
        || c == '\u{202f}' || c == '\u{205f}' || c == '\u{3000}'
}

/// Whether `c` is white space in the Unicode sense.
pub fn is_white(c: char) -> (r: bool)
    ensures
        r == spec_is_white(c),
{
    c == ' ' || ('\t' <= c && c <= '\r') || c == '\u{85}' || c == '\u{a0}' || c == '\u{1680}'
        || ('\u{2000}' <= c && c <= '\u{200a}') || c == '\u{2028}' || c == '\u{2029}'
        || c == '\u{202f}' || c == '\u{205f}' || c == '\u{3000}'
}

/// Position of the first `c` in `s`, or -1.
pub open spec fn first_index(s: Seq<char>, c: char) -> int
    decreases s.len(),
{
    if s.len() == 0 {
        -1
    } else {
        let r = first_index(s.drop_last(), c);
        if r >= 0 {
            r
        } else if s.last() == c {
            s.len() - 1
        } else {
            -1
        }
    }
}

pub proof fn lemma_first_index_bounds(s: Seq<char>, c: char)
    ensures
        -1 <= first_index(s, c) < s.len(),
        first_index(s, c) >= 0 ==> s[first_index(s, c)] == c,
        first_index(s, c) == -1 ==> forall|j: int| 0 <= j < s.len() ==> s[j] != c,
        forall|j: int| 0 <= j < first_index(s, c) ==> s[j] != c,
    decreases s.len(),
{
    if s.len() > 0 {
        let t = s.drop_last();
        lemma_first_index_bounds(t, c);
        assert forall|j: int| 0 <= j < t.len() implies t[j] == s[j] by {}
    }
}

/// The first `c` of a prefix that holds one is the first `c` of the whole.
pub proof fn lemma_first_index_prefix(s: Seq<char>, c: char, k: int)
    requires
        0 <= k <= s.len(),
        first_index(s.take(k), c) >= 0,
    ensures
        first_index(s, c) == first_index(s.take(k), c),
    decreases s.len() - k,
{
    if k < s.len() {
        assert(s.take(k + 1).drop_last() =~= s.take(k));
        lemma_first_index_prefix(s, c, k + 1);
    } else {
        assert(s.take(k) =~= s);
    }
}

/// Finds the first `c` in `s`.
pub fn find_char(s: &str, c: char) -> (r: Option<usize>)
    ensures
        match r {
            Some(i) => i as int == first_index(s@, c),
            None => first_index(s@, c) == -1,
        },
        r matches Some(i) ==> i < s@.len(),
{
    let n = s.unicode_len();
    let mut i: usize = 0;
    while i < n
        invariant
            n == s@.len(),
            i <= n,
            first_index(s@.take(i as int), c) == -1,
        decreases n - i,
    {
        assert(s@.take(i as int + 1).drop_last() =~= s@.take(i as int));
        if s.get_char(i) == c {
            proof {
                assert(s@.take(i as int + 1).last() == s@[i as int]);
                lemma_first_index_prefix(s@, c, i as int + 1);
            }
            return Some(i);
        }
        i = i + 1;
    }
    assert(s@.take(n as int) =~= s@);
    proof { lemma_first_index_bounds(s@, c); }
    None
}

/// Whether two strings hold the same characters.
pub fn str_eq(a: &str, b: &str) -> (r: bool)
    ensures
        r == (a@ == b@),
{
    let x = a.to_owned();
    let y = b.to_owned();
    x == y
}

/// A copy of `s` as an owned string.
pub fn owned(s: &str) -> (r: String)
    ensures
        r@ == s@,
{
    s.to_owned()
}

/// The characters of an optional string.
pub open spec fn opt_view(o: Option<String>) -> Option<Seq<char>> {
    match o {
        Some(s) => Some(s@),
        None => None,
    }
}

/// Whether two optional strings are both absent or hold the same characters.
pub fn opt_eq(a: &Option<String>, b: &Option<String>) -> (r: bool)
    ensures
        r == (opt_view(*a) == opt_view(*b)),
{
    match a {
        Some(x) => match b {
            Some(y) => x.eq(y),
            None => false,
        },
        None => b.is_none(),
    }
}

/// The white-space separated tokens of `s`, in order.
pub open spec fn tokens(s: Seq<char>) -> Seq<Seq<char>>
    decreases s.len(),
{
    if s.len() == 0 {
        seq![]
    } else {
        let t = tokens(s.drop_last());
        let c = s.last();
        if spec_is_white(c) {
            t
        } else if s.len() >= 2 && !spec_is_white(s[s.len() - 2]) && t.len() > 0 {
            t.drop_last().push(t.last().push(c))
        } else {
            t.push(seq![c])
        }
    }
}

/// Whether the scan of `s` up to `i` ends inside a token.
pub open spec fn in_token(s: Seq<char>, i: int) -> bool {
    i > 0 && !spec_is_white(s[i - 1])
}

/// Position where the token that ends at `i` begins.
pub open spec fn token_start(s: Seq<char>, i: int) -> int
    decreases i,
{
    if i <= 0 {
        0
    } else if spec_is_white(s[i - 1]) {
        i
    } else {
        token_start(s, i - 1)
    }
}

proof fn lemma_tokens_shape(s: Seq<char>, i: int)
    requires
        0 <= i <= s.len(),
    ensures
        0 <= token_start(s, i) <= i,
        in_token(s, i) ==> tokens(s.take(i)).len() > 0 && tokens(s.take(i)).last() == s.subrange(
            token_start(s, i),
            i,
        ) && token_start(s, i) < i,
        !in_token(s, i) ==> token_start(s, i) == i,
        forall|k: int| token_start(s, i) <= k < i ==> !spec_is_white(#[trigger] s[k]),
    decreases i,
{
    if i > 0 {
        lemma_tokens_shape(s, i - 1);
        assert(s.take(i).drop_last() =~= s.take(i - 1));
        if in_token(s, i) {
            if in_token(s, i - 1) {
                assert(s.take(i)[i - 2] == s[i - 2]);
                assert(s.subrange(token_start(s, i), i) =~= s.subrange(token_start(s, i - 1), i - 1).push(s[i - 1]));
            } else {
                assert(s.subrange(i - 1, i) =~= seq![s[i - 1]]);
            }
        }
    }
}

/// Splits `s` at white space.
pub fn split_white(s: &str) -> (r: Vec<String>)
    ensures
        r@.len() == tokens(s@).len(),
        forall|k: int| 0 <= k < r@.len() ==> #[trigger] r@[k]@ == tokens(s@)[k],
{
    let n = s.unicode_len();
    let mut out: Vec<String> = Vec::new();
    let mut start: usize = 0;
    let mut i: usize = 0;
    while i < n
        invariant
            n == s@.len(),
            i <= n,
            start as int == token_start(s@, i as int),
            in_token(s@, i as int) ==> out@.len() + 1 == tokens(s@.take(i as int)).len(),
            !in_token(s@, i as int) ==> out@.len() == tokens(s@.take(i as int)).len(),
            forall|k: int| 0 <= k < out@.len() ==> #[trigger] out@[k]@ == tokens(s@.take(i as int))[k],
        decreases n - i,
    {
        proof {
            lemma_tokens_shape(s@, i as int);
            lemma_tokens_shape(s@, i as int + 1);
            assert(s@.take(i as int + 1).drop_last() =~= s@.take(i as int));
            assert(s@.take(i as int + 1).last() == s@[i as int]);
            if i > 0 {
                assert(s@.take(i as int + 1)[i - 1] == s@[i - 1]);
            }
        }
        let c = s.get_char(i);
        if is_white(c) {
            if start < i {
                let t = s.substring_char(start, i);
                out.push(t.to_owned());
            }
            start = i + 1;
        }
        i = i + 1;
    }
    proof {
        lemma_tokens_shape(s@, n as int);
        assert(s@.take(n as int) =~= s@);
    }
    if start < n {
        let t = s.substring_char(start, n);
        out.push(t.to_owned());
    }
    out
}


/// `s` with every `\` turned into `/`.
pub open spec fn forward_slashes(s: Seq<char>) -> Seq<char> {
    s.map_values(|c: char| if c == '\\' { '/' } else { c })
}

/// Writes a relative file path with `/` separators only, whatever the host's separator.
pub fn to_forward_slashes(s: &str) -> (r: String)
    ensures
        r@ == forward_slashes(s@),
{
    let n = s.unicode_len();
    let mut out = String::new();
    let mut i: usize = 0;
    while i < n
        invariant
            n == s@.len(),
            i <= n,
            out@ == forward_slashes(s@.take(i as int)),
        decreases n - i,
    {
        proof { reveal_strlit("/"); }
        if s.get_char(i) == '\\' {
            out.append("/");
        } else {
            out.append(s.substring_char(i, i + 1));
        }
        i = i + 1;
        assert(out@ =~= forward_slashes(s@.take(i as int)));
    }
    assert(s@.take(n as int) =~= s@);
    out
}

} // verus!
