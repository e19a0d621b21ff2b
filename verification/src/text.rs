use vstd::prelude::*;

use crate::hash::{hex_char, hex_digit};

verus! {

broadcast use vstd::string::group_string_axioms;

/// The characters of `s`, in order.
pub fn chars_of(s: &str) -> (v: Vec<char>)
    ensures
        v@ == s@,
{
    let mut v: Vec<char> = Vec::new();
    for c in it: s.chars()
        invariant
            v@ == it.seq().take(it.index() as int),
            it.seq() == s@,
    {
        v.push(c);
    }
    v
}

/// Whether two strings hold the same characters.
pub fn str_eq(a: &str, b: &str) -> (r: bool)
    ensures
        r == (a@ == b@),
{
    let x = chars_of(a);
    let y = chars_of(b);
    if x.len() != y.len() {
        return false;
    }
    let mut i: usize = 0;
    while i < x.len()
        invariant
            i <= x.len(),
            x.len() == y.len(),
            x@ == a@,
            y@ == b@,
            forall|j: int| 0 <= j < i ==> x@[j] == y@[j],
        decreases x.len() - i,
    {
        if x[i] == y[i] {
        } else {
            assert(x@[i as int] != y@[i as int]);
            assert(a@[i as int] != b@[i as int]);
            return false;
        }
        i = i + 1;
    }
    assert(x@ =~= y@);
    true
}

/// `s` ends with `suffix`.
pub open spec fn ends_with(s: Seq<char>, suffix: Seq<char>) -> bool {
    suffix.len() <= s.len() && s.subrange(s.len() - suffix.len(), s.len() as int) == suffix
}

/// Whether `s` ends with `suffix`.
pub fn str_ends_with(s: &str, suffix: &str) -> (r: bool)
    ensures
        r == ends_with(s@, suffix@),
{
    let x = chars_of(s);
    let y = chars_of(suffix);
    if y.len() > x.len() {
        return false;
    }
    let offset = x.len() - y.len();
    let mut i: usize = 0;
    while i < y.len()
        invariant
            i <= y.len(),
            offset + y.len() == x.len(),
            x@ == s@,
            y@ == suffix@,
            forall|j: int| 0 <= j < i ==> x@[offset + j] == y@[j],
        decreases y.len() - i,
    {
        if x[offset + i] != y[i] {
            assert(s@.subrange(offset as int, s@.len() as int)[i as int] != suffix@[i as int]);
            return false;
        }
        i = i + 1;
    }
    assert(s@.subrange(offset as int, s@.len() as int) =~= suffix@);
    true
}

/// Decimal digits of `n`, most significant first, with no leading zero
/// (zero itself is the single digit `0`).
pub open spec fn decimal(n: nat) -> Seq<char>
    decreases n,
{
    if n < 10 {
        seq![hex_char(n as u64)]
    } else {
        decimal(n / 10).push(hex_char((n % 10) as u64))
    }
}

/// Every character of `decimal(n)` is a digit `0`..`9`.
pub proof fn lemma_decimal_digits(n: nat)
    ensures
        forall|i: int| 0 <= i < decimal(n).len() ==> '0' <= #[trigger] decimal(n)[i] <= '9',
    decreases n,
{
    if n >= 10 {
        lemma_decimal_digits(n / 10);
        let d = decimal(n / 10).push(hex_char((n % 10) as u64));
        assert forall|i: int| 0 <= i < d.len() implies '0' <= #[trigger] d[i] <= '9' by {
            if i < d.len() - 1 {
                assert(d[i] == decimal(n / 10)[i]);
            }
        }
    }
}

/// Renders `n` in decimal.
pub fn decimal_u64(n: u64) -> (s: String)
    ensures
        s@ == decimal(n as nat),
    decreases n,
{
    if n < 10 {
        String::from_str(hex_digit(n))
    } else {
        let mut s = decimal_u64(n / 10);
        s.append(hex_digit(n % 10));
        s
    }
}

/// Lexicographic "comes before" on character sequences, comparing code
/// points; a proper prefix comes before its extensions. This is the order
/// of `String` keys in an ordered map.
pub open spec fn lex_lt(a: Seq<char>, b: Seq<char>) -> bool
    decreases a.len(),
{
    if a.len() == 0 {
        b.len() > 0
    } else if b.len() == 0 {
        false
    } else if a[0] != b[0] {
        (a[0] as int) < (b[0] as int)
    } else {
        lex_lt(a.drop_first(), b.drop_first())
    }
}

/// `lex_lt` is a strict total order.
pub proof fn lemma_lex_order(a: Seq<char>, b: Seq<char>, c: Seq<char>)
    ensures
        !lex_lt(a, a),
        lex_lt(a, b) ==> !lex_lt(b, a),
        a != b ==> lex_lt(a, b) || lex_lt(b, a),
        lex_lt(a, b) && lex_lt(b, c) ==> lex_lt(a, c),
{
    lemma_lex_irreflexive(a);
    lemma_lex_asymmetric(a, b);
    lemma_lex_total(a, b);
    lemma_lex_transitive(a, b, c);
}

proof fn lemma_lex_irreflexive(a: Seq<char>)
    ensures
        !lex_lt(a, a),
    decreases a.len(),
{
    if a.len() > 0 {
        lemma_lex_irreflexive(a.drop_first());
    }
}

proof fn lemma_lex_asymmetric(a: Seq<char>, b: Seq<char>)
    ensures
        lex_lt(a, b) ==> !lex_lt(b, a),
    decreases a.len(),
{
    if a.len() > 0 && b.len() > 0 && a[0] == b[0] {
        lemma_lex_asymmetric(a.drop_first(), b.drop_first());
    }
}

proof fn lemma_lex_total(a: Seq<char>, b: Seq<char>)
    ensures
        a != b ==> lex_lt(a, b) || lex_lt(b, a),
    decreases a.len(),
{
    if a.len() == 0 && b.len() == 0 {
        assert(a =~= b);
    } else if a.len() > 0 && b.len() > 0 {
        if a[0] == b[0] {
            lemma_lex_total(a.drop_first(), b.drop_first());
            if a.drop_first() == b.drop_first() {
                assert(a =~= seq![a[0]] + a.drop_first());
                assert(b =~= seq![b[0]] + b.drop_first());
            }
        } else {
            assert((a[0] as int) != (b[0] as int));
        }
    }
}

proof fn lemma_lex_transitive(a: Seq<char>, b: Seq<char>, c: Seq<char>)
    ensures
        lex_lt(a, b) && lex_lt(b, c) ==> lex_lt(a, c),
    decreases a.len(),
{
    if a.len() > 0 && b.len() > 0 && c.len() > 0 {
        lemma_lex_transitive(a.drop_first(), b.drop_first(), c.drop_first());
    }
}

/// Where one string falls relative to another in lexicographic order.
#[derive(Clone, Copy, Debug, PartialEq, Eq, Structural)]
pub enum Lex {
    Before,
    Same,
    After,
}

/// Compares `a` with `b` in lexicographic code-point order.
pub fn lex_order(a: &str, b: &str) -> (r: Lex)
    ensures
        r == Lex::Before <==> lex_lt(a@, b@),
        r == Lex::Same <==> a@ == b@,
        r == Lex::After <==> lex_lt(b@, a@),
{
    let x = chars_of(a);
    let y = chars_of(b);
    let mut i: usize = 0;
    while i < x.len() && i < y.len() && x[i] == y[i]
        invariant
            i <= x.len(),
            i <= y.len(),
            x@ == a@,
            y@ == b@,
            x@.take(i as int) == y@.take(i as int),
        decreases x.len() - i,
    {
        assert(x@.take(i + 1) =~= x@.take(i as int).push(x@[i as int]));
        assert(y@.take(i + 1) =~= y@.take(i as int).push(y@[i as int]));
        i = i + 1;
    }
    proof {
        lemma_lex_skip_common(x@, y@, i as int);
        lemma_lex_order(a@, b@, b@);
    }
    if i < x.len() && i < y.len() {
        assert(x@.skip(i as int)[0] == x@[i as int]);
        assert(y@.skip(i as int)[0] == y@[i as int]);
        assert(x@.skip(i as int) != y@.skip(i as int));
        if x[i] < y[i] {
            Lex::Before
        } else {
            Lex::After
        }
    } else if x.len() == y.len() {
        assert(x@ =~= x@.take(i as int));
        assert(y@ =~= y@.take(i as int));
        Lex::Same
    } else if x.len() < y.len() {
        assert(x@.skip(i as int).len() == 0);
        Lex::Before
    } else {
        assert(y@.skip(i as int).len() == 0);
        Lex::After
    }
}

/// A common prefix of length `i` does not change the comparison.
proof fn lemma_lex_skip_common(a: Seq<char>, b: Seq<char>, i: int)
    requires
        0 <= i <= a.len(),
        i <= b.len(),
        a.take(i) == b.take(i),
    ensures
        lex_lt(a, b) == lex_lt(a.skip(i), b.skip(i)),
        lex_lt(b, a) == lex_lt(b.skip(i), a.skip(i)),
        (a == b) == (a.skip(i) == b.skip(i)),
    decreases i,
{
    if i > 0 {
        assert(a[0] == a.take(i)[0]);
        assert(b[0] == b.take(i)[0]);
        assert(a.drop_first().take(i - 1) =~= a.take(i).drop_first());
        assert(b.drop_first().take(i - 1) =~= b.take(i).drop_first());
        lemma_lex_skip_common(a.drop_first(), b.drop_first(), i - 1);
        assert(a.drop_first().skip(i - 1) =~= a.skip(i));
        assert(b.drop_first().skip(i - 1) =~= b.skip(i));
        assert(a =~= seq![a[0]] + a.drop_first());
        assert(b =~= seq![b[0]] + b.drop_first());
    } else {
        assert(a.skip(0) =~= a);
        assert(b.skip(0) =~= b);
    }
}

/// Characters with the Unicode `White_Space` property, the set that
/// `char::is_whitespace` and `str::trim` use.
pub open spec fn is_white_space(c: char) -> bool {
    let v = c as int;
    ||| 0x09 <= v <= 0x0d
    ||| v == 0x20
    ||| v == 0x85
    ||| v == 0xa0
    ||| v == 0x1680
    ||| 0x2000 <= v <= 0x200a
    ||| v == 0x2028
    ||| v == 0x2029
    ||| v == 0x202f
    ||| v == 0x205f
    ||| v == 0x3000
}

pub fn char_is_whitespace(c: char) -> (b: bool)
    ensures
        b == is_white_space(c),
{
    let v = c as u32;
    (0x09 <= v && v <= 0x0d) || v == 0x20 || v == 0x85 || v == 0xa0 || v == 0x1680 || (0x2000 <= v && v
        <= 0x200a) || v == 0x2028 || v == 0x2029 || v == 0x202f || v == 0x205f || v == 0x3000
}

/// `s` without its leading white space.
pub open spec fn trim_start(s: Seq<char>) -> Seq<char>
    decreases s.len(),
{
    if s.len() > 0 && is_white_space(s[0]) {
        trim_start(s.drop_first())
    } else {
        s
    }
}

/// `s` without its trailing white space.
pub open spec fn trim_end(s: Seq<char>) -> Seq<char>
    decreases s.len(),
{
    if s.len() > 0 && is_white_space(s.last()) {
        trim_end(s.drop_last())
    } else {
        s
    }
}

/// `s` without leading or trailing white space.
pub open spec fn trim(s: Seq<char>) -> Seq<char> {
    trim_end(trim_start(s))
}

/// Every character of `s` is white space (so `trim(s)` is empty).
pub open spec fn all_white_space(s: Seq<char>) -> bool {
    forall|i: int| 0 <= i < s.len() ==> is_white_space(#[trigger] s[i])
}

pub proof fn lemma_trim_start_skip(s: Seq<char>, i: int)
    requires
        0 <= i <= s.len(),
        forall|k: int| 0 <= k < i ==> is_white_space(#[trigger] s[k]),
    ensures
        trim_start(s) == trim_start(s.skip(i)),
    decreases i,
{
    if i > 0 {
        assert(s.drop_first().skip(i - 1) =~= s.skip(i));
        assert forall|k: int| 0 <= k < i - 1 implies is_white_space(#[trigger] s.drop_first()[k]) by {
            assert(s.drop_first()[k] == s[k + 1]);
        }
        lemma_trim_start_skip(s.drop_first(), i - 1);
    } else {
        assert(s.skip(0) =~= s);
    }
}

proof fn lemma_trim_end_take(s: Seq<char>, j: int)
    requires
        0 <= j <= s.len(),
        forall|k: int| j <= k < s.len() ==> is_white_space(#[trigger] s[k]),
    ensures
        trim_end(s) == trim_end(s.take(j)),
    decreases s.len() - j,
{
    if j < s.len() {
        assert(s.drop_last().take(j) =~= s.take(j));
        lemma_trim_end_take(s.drop_last(), j);
    } else {
        assert(s.take(j) =~= s);
    }
}

/// Bounds `(start, end)` of `trim(s@)` inside `s`.
pub fn trim_bounds(s: &Vec<char>, from: usize, to: usize) -> (r: (usize, usize))
    requires
        from <= to <= s@.len(),
    ensures
        from <= r.0 <= r.1 <= to,
        s@.subrange(r.0 as int, r.1 as int) == trim(s@.subrange(from as int, to as int)),
{
    let ghost t = s@.subrange(from as int, to as int);
    let mut start = from;
    while start < to && char_is_whitespace(s[start])
        invariant
            from <= start <= to,
            to <= s@.len(),
            t == s@.subrange(from as int, to as int),
            forall|k: int| from <= k < start ==> is_white_space(#[trigger] s@[k]),
        decreases to - start,
    {
        start = start + 1;
    }
    proof {
        assert forall|k: int| 0 <= k < start - from implies is_white_space(#[trigger] t[k]) by {
            assert(t[k] == s@[from + k]);
        }
        lemma_trim_start_skip(t, start - from);
        assert(t.skip(start - from) =~= s@.subrange(start as int, to as int));
        let u = s@.subrange(start as int, to as int);
        if u.len() > 0 {
            assert(u[0] == s@[start as int]);
        }
        assert(trim_start(u) == u);
    }
    let mut end = to;
    while end > start && char_is_whitespace(s[end - 1])
        invariant
            from <= start <= end <= to,
            to <= s@.len(),
            forall|k: int| end <= k < to ==> is_white_space(#[trigger] s@[k]),
        decreases end - start,
    {
        end = end - 1;
    }
    proof {
        let u = s@.subrange(start as int, to as int);
        assert forall|k: int| end - start <= k < u.len() implies is_white_space(#[trigger] u[k]) by {
            assert(u[k] == s@[start + k]);
        }
        lemma_trim_end_take(u, end - start);
        let w = u.take(end - start);
        assert(w =~= s@.subrange(start as int, end as int));
        if w.len() > 0 {
            assert(w.last() == s@[end - 1]);
        }
        assert(trim_end(w) == w);
    }
    (start, end)
}

/// `pat` occurs in `s` at position `i`.
pub open spec fn matches_at(s: Seq<char>, pat: Seq<char>, i: int) -> bool {
    0 <= i && i + pat.len() <= s.len() && s.subrange(i, i + pat.len()) == pat
}

/// `i` is the first position where `pat` occurs in `s`.
pub open spec fn is_first_match(s: Seq<char>, pat: Seq<char>, i: int) -> bool {
    &&& matches_at(s, pat, i)
    &&& forall|j: int| 0 <= j < i ==> !matches_at(s, pat, j)
}

/// Position of the first occurrence of `pat` in `s`, as `str::find` gives it
/// (counted in characters).
pub open spec fn find_spec(s: Seq<char>, pat: Seq<char>) -> Option<int> {
    if exists|i: int| #[trigger] is_first_match(s, pat, i) {
        Some(choose|i: int| #[trigger] is_first_match(s, pat, i))
    } else {
        None
    }
}

pub proof fn lemma_first_match_unique(s: Seq<char>, pat: Seq<char>, i: int, j: int)
    requires
        is_first_match(s, pat, i),
        is_first_match(s, pat, j),
    ensures
        i == j,
{
}

/// What `find_spec` says, unfolded.
pub proof fn lemma_find_spec(s: Seq<char>, pat: Seq<char>)
    ensures
        find_spec(s, pat) matches Some(i) ==> is_first_match(s, pat, i) && 0 <= i && i + pat.len() <= s.len(),
        find_spec(s, pat) is None ==> forall|j: int| !matches_at(s, pat, j),
{
    if find_spec(s, pat) is None {
        assert forall|j: int| !matches_at(s, pat, j) by {
            if matches_at(s, pat, j) {
                let k = choose_first_match(s, pat, j);
                assert(is_first_match(s, pat, k));
            }
        }
    }
}

/// Some first match exists once any match does.
proof fn choose_first_match(s: Seq<char>, pat: Seq<char>, j: int) -> (k: int)
    requires
        matches_at(s, pat, j),
    ensures
        is_first_match(s, pat, k),
    decreases j,
{
    if forall|m: int| 0 <= m < j ==> !matches_at(s, pat, m) {
        j
    } else {
        let m = choose|m: int| 0 <= m < j && matches_at(s, pat, m);
        choose_first_match(s, pat, m)
    }
}

/// First occurrence of `pat` in `s` at or after `from`, as an offset from
/// `from`: the exact `find_spec` of the suffix.
pub fn find_chars(s: &Vec<char>, pat: &Vec<char>, from: usize) -> (r: Option<usize>)
    requires
        from <= s@.len(),
    ensures
        r matches Some(i) ==> find_spec(s@.subrange(from as int, s@.len() as int), pat@) == Some(i as int),
        r is None ==> find_spec(s@.subrange(from as int, s@.len() as int), pat@) is None,
{
    let ghost t = s@.subrange(from as int, s@.len() as int);
    if pat.len() > s.len() - from {
        proof {
            lemma_find_spec(t, pat@);
        }
        return None;
    }
    let n = s.len();
    let last = n - from - pat.len();
    let mut i: usize = 0;
    let mut done = false;
    while !done
        invariant
            from + last + pat@.len() == s@.len(),
            n == s@.len(),
            t == s@.subrange(from as int, s@.len() as int),
            i <= last,
            forall|j: int| 0 <= j < i ==> !matches_at(t, pat@, j),
            done ==> forall|j: int| 0 <= j <= last ==> !matches_at(t, pat@, j),
        decreases last - i, (if done { 0int } else { 1int }),
    {
        let mut k: usize = 0;
        let mut same = true;
        while k < pat.len() && same
            invariant
                k <= pat@.len(),
                i <= last,
                from + last + pat@.len() == s@.len(),
                n == s@.len(),
                t == s@.subrange(from as int, s@.len() as int),
                same ==> forall|q: int| 0 <= q < k ==> t[i + q] == pat@[q],
                !same ==> exists|q: int| 0 <= q < pat@.len() && t[i + q] != pat@[q],
            decreases pat@.len() - k, (if same { 1int } else { 0int }),
        {
            if s[from + i + k] != pat[k] {
                assert(t[i + k] == s@[from + i + k]);
                same = false;
            } else {
                assert(t[i + k] == s@[from + i + k]);
                k = k + 1;
            }
        }
        if same {
            proof {
                assert(t.subrange(i as int, i + pat@.len()) =~= pat@);
                assert(is_first_match(t, pat@, i as int));
                lemma_find_spec(t, pat@);
                let f = find_spec(t, pat@)->Some_0;
                lemma_first_match_unique(t, pat@, f, i as int);
            }
            return Some(i);
        }
        proof {
            assert(!matches_at(t, pat@, i as int)) by {
                if matches_at(t, pat@, i as int) {
                    let q = choose|q: int| 0 <= q < pat@.len() && t[i + q] != pat@[q];
                    assert(t.subrange(i as int, i + pat@.len())[q] == t[i + q]);
                }
            }
        }
        if i == last {
            done = true;
        } else {
            i = i + 1;
        }
    }
    proof {
        assert forall|j: int| !matches_at(t, pat@, j) by {
            if matches_at(t, pat@, j) {
                assert(j <= last);
            }
        }
        if find_spec(t, pat@) is Some {
            lemma_find_spec(t, pat@);
        }
    }
    None
}


/// How a string's `Debug` form writes one character of printable or
/// control ASCII: backslash escapes for NUL, tab, carriage return, line
/// feed, backslash and double quote, `\u{..}` with lowercase hex digits for
/// the other control characters, and the character itself otherwise.
pub open spec fn debug_char(c: char) -> Seq<char> {
    if c == '\0' {
        "\\0"@
    } else if c == '\t' {
        "\\t"@
    } else if c == '\r' {
        "\\r"@
    } else if c == '\n' {
        "\\n"@
    } else if c == '\\' {
        "\\\\"@
    } else if c == '"' {
        "\\\""@
    } else if (c as u32) < 0x20 || (c as u32) == 0x7f {
        if (c as u32) < 16 {
            "\\u{"@ + seq![hex_char((c as u32) as u64)] + "}"@
        } else {
            "\\u{"@ + seq![hex_char(((c as u32) as u64) / 16), hex_char(((c as u32) as u64) % 16)] + "}"@
        }
    } else {
        seq![c]
    }
}

/// The escaped characters of `s`, in order.
pub open spec fn debug_body(s: Seq<char>) -> Seq<char>
    decreases s.len(),
{
    if s.len() == 0 {
        Seq::empty()
    } else {
        debug_body(s.drop_last()) + debug_char(s.last())
    }
}

/// `s` in double quotes with `debug_char` escapes, as messages quote names.
pub open spec fn debug_quoted(s: Seq<char>) -> Seq<char> {
    "\""@ + debug_body(s) + "\""@
}

/// Appends `debug_quoted(s)` to `message`.
pub fn push_debug_quoted(message: &mut String, s: &str)
    ensures
        final(message)@ == old(message)@ + debug_quoted(s@),
{
    let n = chars_of(s).len();
    push_debug_quoted_range(message, s, 0, n);
    assert(s@.subrange(0, n as int) =~= s@);
}

/// Appends `debug_quoted` of the characters `from..to` of `s` to `message`.
pub fn push_debug_quoted_range(message: &mut String, s: &str, from: usize, to: usize)
    requires
        from <= to <= s@.len(),
    ensures
        final(message)@ == old(message)@ + debug_quoted(s@.subrange(from as int, to as int)),
{
    let ghost start = message@;
    let chars = chars_of(s);
    message.append("\"");
    let mut i: usize = from;
    assert(s@.subrange(from as int, from as int) =~= Seq::<char>::empty());
    while i < to
        invariant
            from <= i <= to,
            to <= chars@.len(),
            chars@ == s@,
            message@ == start + "\""@ + debug_body(s@.subrange(from as int, i as int)),
        decreases to - i,
    {
        let c = chars[i];
        let ghost before = message@;
        if c == '\0' {
            message.append("\\0");
        } else if c == '\t' {
            message.append("\\t");
        } else if c == '\r' {
            message.append("\\r");
        } else if c == '\n' {
            message.append("\\n");
        } else if c == '\\' {
            message.append("\\\\");
        } else if c == '"' {
            message.append("\\\"");
        } else if (c as u32) < 0x20 || (c as u32) == 0x7f {
            let code = c as u32 as u64;
            message.append("\\u{");
            if code >= 16 {
                message.append(hex_digit(code / 16));
            }
            message.append(hex_digit(code % 16));
            message.append("}");
            proof {
                assert(code == (c as u32) as u64);
                if code < 16 {
                    assert(code % 16 == code);
                    assert(message@ =~= before + debug_char(c));
                } else {
                    assert(message@ =~= before + debug_char(c));
                }
            }
        } else {
            let one = s.substring_char(i, i + 1);
            assert(one@ =~= seq![c]);
            message.append(one);
        }
        assert(message@ =~= before + debug_char(c));
        proof {
            let next = s@.subrange(from as int, i + 1);
            assert(next.drop_last() =~= s@.subrange(from as int, i as int));
            assert(next.last() == c);
            assert(message@ =~= start + "\""@ + debug_body(next));
        }
        i = i + 1;
    }
    message.append("\"");
    assert(message@ =~= old(message)@ + debug_quoted(s@.subrange(from as int, to as int)));
}

} // verus!
