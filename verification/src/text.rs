//! Character-level helpers shared by the line grammar and the transpiler:
//! whitespace classification, trimming, percent re-escaping, and conversions
//! between `&str`, `Vec<char>` and `String`.

use vstd::prelude::*;
use vstd::string::StrSliceExecFns;
use vstd::string::StringExecFns;

verus! {

/// The characters with the Unicode `White_Space` property, exactly the ones
/// that `str::trim` removes.
pub open spec fn is_ws_char(c: char) -> bool {
    c == ' ' || c == '\t' || c == '\n' || c == '\u{b}' || c == '\u{c}' || c == '\r'
        || c == '\u{85}' || c == '\u{a0}' || c == '\u{1680}' || c == '\u{2000}' || c == '\u{2001}'
        || c == '\u{2002}' || c == '\u{2003}' || c == '\u{2004}' || c == '\u{2005}'
        || c == '\u{2006}' || c == '\u{2007}' || c == '\u{2008}' || c == '\u{2009}'
        || c == '\u{200a}' || c == '\u{2028}' || c == '\u{2029}' || c == '\u{202f}'
        || c == '\u{205f}' || c == '\u{3000}'
}

pub open spec fn ws_pred() -> spec_fn(char) -> bool {
    |c: char| is_ws_char(c)
}

pub open spec fn space_pred() -> spec_fn(char) -> bool {
    |c: char| c == ' '
}

/// Length of the longest prefix of `s` whose characters all satisfy `p`.
pub open spec fn prefix_len(s: Seq<char>, p: spec_fn(char) -> bool) -> int
    decreases s.len(),
{
    if s.len() > 0 && p(s[0]) {
        1 + prefix_len(s.drop_first(), p)
    } else {
        0
    }
}

/// Number of leading whitespace characters of `s`.
pub open spec fn leading_ws_len(s: Seq<char>) -> int {
    prefix_len(s, ws_pred())
}

/// Number of leading space (`' '`) characters of `s`.
pub open spec fn leading_space_len(s: Seq<char>) -> int {
    prefix_len(s, space_pred())
}

pub proof fn lemma_prefix_len_props(s: Seq<char>, p: spec_fn(char) -> bool)
    ensures
        0 <= prefix_len(s, p) <= s.len(),
        forall|j: int| 0 <= j < prefix_len(s, p) ==> p(s[j]),
        prefix_len(s, p) < s.len() ==> !p(s[prefix_len(s, p)]),
    decreases s.len(),
{
    if s.len() > 0 && p(s[0]) {
        lemma_prefix_len_props(s.drop_first(), p);
        let k = prefix_len(s, p);
        assert forall|j: int| 1 <= j < k implies p(s[j]) by {
            assert(p(s.drop_first()[j - 1]));
        }
        if k < s.len() {
            assert(s.drop_first()[k - 1] == s[k]);
        }
    }
}

/// `prefix_len` is the unique boundary: all of `s[..k]` satisfies `p` and
/// either `k` is the end or `s[k]` does not.
proof fn lemma_prefix_len_at(s: Seq<char>, p: spec_fn(char) -> bool, k: int)
    requires
        0 <= k <= s.len(),
        forall|j: int| 0 <= j < k ==> p(s[j]),
        k == s.len() || !p(s[k]),
    ensures
        prefix_len(s, p) == k,
    decreases s.len(),
{
    if k == 0 {
        if s.len() > 0 {
            assert(!p(s[0]));
        }
    } else {
        assert(p(s[0]));
        let t = s.drop_first();
        assert forall|j: int| 0 <= j < k - 1 implies p(t[j]) by {
            assert(t[j] == s[j + 1]);
        }
        if k - 1 < t.len() {
            assert(t[k - 1] == s[k]);
        }
        lemma_prefix_len_at(t, p, k - 1);
    }
}

/// `s` with its leading whitespace removed.
pub open spec fn trim_start_spec(s: Seq<char>) -> Seq<char>
    decreases s.len(),
{
    if s.len() > 0 && is_ws_char(s[0]) {
        trim_start_spec(s.drop_first())
    } else {
        s
    }
}

/// `s` with its trailing whitespace removed.
pub open spec fn trim_end_spec(s: Seq<char>) -> Seq<char>
    decreases s.len(),
{
    if s.len() > 0 && is_ws_char(s.last()) {
        trim_end_spec(s.drop_last())
    } else {
        s
    }
}

/// `s` with leading and trailing whitespace removed, as `str::trim` does.
pub open spec fn trim_spec(s: Seq<char>) -> Seq<char> {
    trim_end_spec(trim_start_spec(s))
}

proof fn lemma_trim_start_at(s: Seq<char>, k: int)
    requires
        0 <= k <= s.len(),
        forall|j: int| 0 <= j < k ==> is_ws_char(s[j]),
        k == s.len() || !is_ws_char(s[k]),
    ensures
        trim_start_spec(s) == s.subrange(k, s.len() as int),
    decreases s.len(),
{
    if k == 0 {
        assert(s.subrange(0, s.len() as int) =~= s);
    } else {
        assert(is_ws_char(s[0]));
        let t = s.drop_first();
        assert forall|j: int| 0 <= j < k - 1 implies is_ws_char(t[j]) by {
            assert(t[j] == s[j + 1]);
        }
        if k - 1 < t.len() {
            assert(t[k - 1] == s[k]);
        }
        lemma_trim_start_at(t, k - 1);
        assert(t.subrange(k - 1, t.len() as int) =~= s.subrange(k, s.len() as int));
    }
}

proof fn lemma_trim_end_at(s: Seq<char>, h: int)
    requires
        0 <= h <= s.len(),
        forall|j: int| h <= j < s.len() ==> is_ws_char(s[j]),
        h == 0 || !is_ws_char(s[h - 1]),
    ensures
        trim_end_spec(s) == s.subrange(0, h),
    decreases s.len(),
{
    if h == s.len() {
        if s.len() > 0 {
            assert(!is_ws_char(s.last()));
        }
        assert(s.subrange(0, s.len() as int) =~= s);
    } else {
        assert(is_ws_char(s.last()));
        let t = s.drop_last();
        lemma_trim_end_at(t, h);
        assert(t.subrange(0, h) =~= s.subrange(0, h));
    }
}

/// Removing leading whitespace removes exactly the whitespace prefix, so the
/// result starts with a non-whitespace character (or is empty).
pub proof fn lemma_trim_start_props(s: Seq<char>)
    ensures
        trim_start_spec(s) == s.subrange(leading_ws_len(s), s.len() as int),
        trim_start_spec(s).len() > 0 ==> !is_ws_char(trim_start_spec(s)[0]),
{
    lemma_prefix_len_props(s, ws_pred());
    lemma_trim_start_at(s, leading_ws_len(s));
}

/// `s` with every `'%'` re-encoded as `"\\%"`, as LaTeX output needs.
pub open spec fn escape_percent(s: Seq<char>) -> Seq<char>
    decreases s.len(),
{
    if s.len() == 0 {
        s
    } else if s[0] == '%' {
        seq!['\\', '%'] + escape_percent(s.drop_first())
    } else {
        seq![s[0]] + escape_percent(s.drop_first())
    }
}

proof fn lemma_escape_percent_push(a: Seq<char>, c: char)
    ensures
        escape_percent(a.push(c)) == escape_percent(a) + (if c == '%' {
            seq!['\\', '%']
        } else {
            seq![c]
        }),
    decreases a.len(),
{
    let tail: Seq<char> = if c == '%' {
        seq!['\\', '%']
    } else {
        seq![c]
    };
    if a.len() == 0 {
        assert(a.push(c)[0] == c);
        assert(a.push(c).drop_first() =~= Seq::<char>::empty());
        assert(escape_percent(Seq::<char>::empty()) == Seq::<char>::empty());
        assert(escape_percent(a.push(c)) =~= escape_percent(a) + tail);
    } else {
        assert(a.push(c)[0] == a[0]);
        assert(a.push(c).drop_first() =~= a.drop_first().push(c));
        lemma_escape_percent_push(a.drop_first(), c);
        let head: Seq<char> = if a[0] == '%' {
            seq!['\\', '%']
        } else {
            seq![a[0]]
        };
        assert(escape_percent(a.push(c)) == head + (escape_percent(a.drop_first()) + tail));
        assert(head + (escape_percent(a.drop_first()) + tail) =~= (head + escape_percent(
            a.drop_first(),
        )) + tail);
    }
}

pub proof fn lemma_escape_percent_len(s: Seq<char>)
    ensures
        s.len() <= escape_percent(s).len() <= 2 * s.len(),
    decreases s.len(),
{
    if s.len() > 0 {
        lemma_escape_percent_len(s.drop_first());
    }
}

/// A sequence of `n` space characters.
pub open spec fn spaces(n: nat) -> Seq<char> {
    Seq::new(n, |i: int| ' ')
}

/// Whether `c` has the Unicode `White_Space` property.
pub fn is_ws(c: char) -> (b: bool)
    ensures
        b == is_ws_char(c),
{
    c == ' ' || c == '\t' || c == '\n' || c == '\u{b}' || c == '\u{c}' || c == '\r'
        || c == '\u{85}' || c == '\u{a0}' || c == '\u{1680}' || c == '\u{2000}' || c == '\u{2001}'
        || c == '\u{2002}' || c == '\u{2003}' || c == '\u{2004}' || c == '\u{2005}'
        || c == '\u{2006}' || c == '\u{2007}' || c == '\u{2008}' || c == '\u{2009}'
        || c == '\u{200a}' || c == '\u{2028}' || c == '\u{2029}' || c == '\u{202f}'
        || c == '\u{205f}' || c == '\u{3000}'
}

/// The characters of `s`, in order.
pub fn str_to_chars(s: &str) -> (r: Vec<char>)
    ensures
        r@ == s@,
{
    let n: usize = s.unicode_len();
    let mut r: Vec<char> = Vec::new();
    let mut i: usize = 0;
    while i < n
        invariant
            i <= n,
            n == s@.len(),
            r@ == s@.subrange(0, i as int),
        decreases n - i,
    {
        let c = s.get_char(i);
        r.push(c);
        proof {
            assert(r@ =~= s@.subrange(0, i + 1));
        }
        i = i + 1;
    }
    proof {
        assert(s@.subrange(0, n as int) =~= s@);
    }
    r
}

/// Relies on `String: FromIterator<char>`: collecting an iterator of
/// characters yields the string of exactly those characters in order.
#[verifier::external_body]
pub fn chars_to_string(v: &Vec<char>) -> (r: String)
    ensures
        r@ == v@,
{
    v.iter().collect()
}

/// The characters `s[from..to]`, as a new vector.
pub fn subvec_chars(s: &Vec<char>, from: usize, to: usize) -> (r: Vec<char>)
    requires
        from <= to <= s@.len(),
    ensures
        r@ == s@.subrange(from as int, to as int),
{
    let mut r: Vec<char> = Vec::new();
    let mut i: usize = from;
    while i < to
        invariant
            from <= i <= to <= s@.len(),
            r@ == s@.subrange(from as int, i as int),
        decreases to - i,
    {
        r.push(s[i]);
        proof {
            assert(r@ =~= s@.subrange(from as int, i + 1));
        }
        i = i + 1;
    }
    r
}

/// Number of leading space characters of `s`.
pub fn leading_spaces(s: &Vec<char>) -> (k: usize)
    ensures
        k as int == leading_space_len(s@),
        k <= s@.len(),
{
    let mut i: usize = 0;
    while i < s.len() && s[i] == ' '
        invariant
            i <= s@.len(),
            forall|j: int| 0 <= j < i ==> space_pred()(s@[j]),
        decreases s@.len() - i,
    {
        i = i + 1;
    }
    proof {
        lemma_prefix_len_at(s@, space_pred(), i as int);
    }
    i
}

/// Number of leading whitespace characters of `s`.
pub fn leading_whitespace(s: &Vec<char>) -> (k: usize)
    ensures
        k as int == leading_ws_len(s@),
        k <= s@.len(),
{
    let mut i: usize = 0;
    while i < s.len() && is_ws(s[i])
        invariant
            i <= s@.len(),
            forall|j: int| 0 <= j < i ==> ws_pred()(s@[j]),
        decreases s@.len() - i,
    {
        i = i + 1;
    }
    proof {
        lemma_prefix_len_at(s@, ws_pred(), i as int);
    }
    i
}

/// `s` without leading and trailing whitespace.
pub fn trim_chars(s: &Vec<char>) -> (r: Vec<char>)
    ensures
        r@ == trim_spec(s@),
{
    let lo = leading_whitespace(s);
    let mut hi: usize = s.len();
    while hi > lo && is_ws(s[hi - 1])
        invariant
            lo <= hi <= s@.len(),
            lo as int == leading_ws_len(s@),
            forall|j: int| hi <= j < s@.len() ==> is_ws_char(s@[j]),
        decreases hi,
    {
        hi = hi - 1;
    }
    let r = subvec_chars(s, lo, hi);
    proof {
        lemma_trim_start_props(s@);
        let t = s@.subrange(lo as int, s@.len() as int);
        assert forall|j: int| hi - lo <= j < t.len() implies is_ws_char(t[j]) by {
            assert(t[j] == s@[lo + j]);
        }
        if hi > lo {
            assert(t[hi - lo - 1] == s@[hi - 1]);
        } else {
            lemma_prefix_len_props(s@, ws_pred());
            if t.len() > 0 {
                assert(t[0] == s@[lo as int]);
            }
        }
        lemma_trim_end_at(t, hi - lo);
        assert(t.subrange(0, hi - lo) =~= s@.subrange(lo as int, hi as int));
    }
    r
}

/// `s` with every `'%'` re-encoded as `"\\%"`.
pub fn escape_percent_chars(s: &Vec<char>) -> (r: Vec<char>)
    ensures
        r@ == escape_percent(s@),
{
    let mut r: Vec<char> = Vec::new();
    let mut i: usize = 0;
    while i < s.len()
        invariant
            i <= s@.len(),
            r@ == escape_percent(s@.subrange(0, i as int)),
        decreases s@.len() - i,
    {
        let c = s[i];
        if c == '%' {
            r.push('\\');
            r.push('%');
        } else {
            r.push(c);
        }
        proof {
            let a = s@.subrange(0, i as int);
            assert(s@.subrange(0, i + 1) =~= a.push(c));
            lemma_escape_percent_push(a, c);
            if c == '%' {
                assert(r@ =~= escape_percent(a) + seq!['\\', '%']);
            } else {
                assert(r@ =~= escape_percent(a) + seq![c]);
            }
        }
        i = i + 1;
    }
    proof {
        assert(s@.subrange(0, s@.len() as int) =~= s@);
    }
    r
}

/// Appends `n` space characters to `out`.
pub fn append_spaces(out: &mut String, n: usize)
    ensures
        final(out)@ == old(out)@ + spaces(n as nat),
{
    let mut i: usize = 0;
    while i < n
        invariant
            i <= n,
            out@ == old(out)@ + spaces(i as nat),
        decreases n - i,
    {
        out.append(" ");
        proof {
            reveal_strlit(" ");
            assert(old(out)@ + spaces(i as nat) + " "@ =~= old(out)@ + spaces((i + 1) as nat));
        }
        i = i + 1;
    }
    proof {
        assert(old(out)@ + spaces(0nat) =~= old(out)@);
    }
}

} // verus!
