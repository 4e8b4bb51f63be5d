use vstd::prelude::*;
use vstd::std_specs::iter::IteratorSpec;

verus! {

broadcast use vstd::string::group_string_axioms;

/// Unicode `White_Space`: the characters `char::is_whitespace` accepts.
pub open spec fn is_ws(c: char) -> bool {
    let u = c as u32;
    ||| 0x09 <= u <= 0x0D
    ||| u == 0x20
    ||| u == 0x85
    ||| u == 0xA0
    ||| u == 0x1680
    ||| 0x2000 <= u <= 0x200A
    ||| u == 0x2028
    ||| u == 0x2029
    ||| u == 0x202F
    ||| u == 0x205F
    ||| u == 0x3000
}

/// Number of whitespace characters at the start of `s`.
pub open spec fn ws_prefix_len(s: Seq<char>) -> nat
    decreases s.len(),
{
    if s.len() == 0 {
        0
    } else {
        let p = ws_prefix_len(s.drop_last());
        if p == s.len() - 1 && is_ws(s.last()) {
            s.len()
        } else {
            p
        }
    }
}

/// Index just past the last non-whitespace character of `s` (0 if there is none).
pub open spec fn content_end(s: Seq<char>) -> nat
    decreases s.len(),
{
    if s.len() == 0 {
        0
    } else if !is_ws(s.last()) {
        s.len()
    } else {
        content_end(s.drop_last())
    }
}

/// `s` without leading and trailing whitespace.
pub open spec fn trim(s: Seq<char>) -> Seq<char> {
    if ws_prefix_len(s) >= content_end(s) {
        Seq::empty()
    } else {
        s.subrange(ws_prefix_len(s) as int, content_end(s) as int)
    }
}

/// The pieces of `s` between occurrences of `c`, in order (always at least one).
pub open spec fn split_on(s: Seq<char>, c: char) -> Seq<Seq<char>>
    decreases s.len(),
{
    if s.len() == 0 {
        seq![Seq::empty()]
    } else {
        let p = split_on(s.drop_last(), c);
        if s.last() == c {
            p.push(Seq::empty())
        } else {
            p.update(p.len() - 1, p.last().push(s.last()))
        }
    }
}

/// The pieces of `s` between occurrences of the two characters `\r\n`.
pub open spec fn split_crlf(s: Seq<char>) -> Seq<Seq<char>>
    decreases s.len(),
{
    if s.len() == 0 {
        seq![Seq::empty()]
    } else if s.len() >= 2 && s[s.len() - 2] == '\r' && s.last() == '\n' {
        split_crlf(s.subrange(0, s.len() - 2)).push(Seq::empty())
    } else {
        let p = split_crlf(s.drop_last());
        p.update(p.len() - 1, p.last().push(s.last()))
    }
}

pub proof fn lemma_split_crlf_len(s: Seq<char>)
    ensures
        split_crlf(s).len() >= 1,
    decreases s.len(),
{
    if s.len() >= 2 && s[s.len() - 2] == '\r' && s.last() == '\n' {
        lemma_split_crlf_len(s.subrange(0, s.len() - 2));
    } else if s.len() > 0 {
        lemma_split_crlf_len(s.drop_last());
    }
}

pub proof fn lemma_split_on_len(s: Seq<char>, c: char)
    ensures
        split_on(s, c).len() >= 1,
    decreases s.len(),
{
    if s.len() > 0 {
        lemma_split_on_len(s.drop_last(), c);
    }
}

/// Position of the first `c` in `s`.
pub open spec fn index_of(s: Seq<char>, c: char) -> Option<int>
    decreases s.len(),
{
    if s.len() == 0 {
        None
    } else {
        match index_of(s.drop_last(), c) {
            Some(i) => Some(i),
            None => if s.last() == c {
                Some(s.len() - 1)
            } else {
                None
            },
        }
    }
}

/// `s` cut at its first `c`: the text before it and the text after it.
pub open spec fn split_once(s: Seq<char>, c: char) -> Option<(Seq<char>, Seq<char>)> {
    match index_of(s, c) {
        Some(i) => Some((s.subrange(0, i), s.subrange(i + 1, s.len() as int))),
        None => None,
    }
}

pub open spec fn occurs_at(s: Seq<char>, pat: Seq<char>, k: int) -> bool {
    0 <= k && k + pat.len() <= s.len() && s.subrange(k, k + pat.len()) == pat
}

/// `pat` occurs somewhere in `s`.
pub open spec fn contains_text(s: Seq<char>, pat: Seq<char>) -> bool {
    exists|k: int| occurs_at(s, pat, k)
}

pub open spec fn is_digit(c: char) -> bool {
    0x30 <= c as u32 <= 0x39
}

pub open spec fn all_digits(s: Seq<char>) -> bool {
    forall|i: int| 0 <= i < s.len() ==> is_digit(#[trigger] s[i])
}

pub open spec fn digit_value(c: char) -> nat {
    (c as u32 - 0x30) as nat
}

/// The number that the decimal digits `s` stand for.
pub open spec fn digits_value(s: Seq<char>) -> nat
    decreases s.len(),
{
    if s.len() == 0 {
        0
    } else {
        digits_value(s.drop_last()) * 10 + digit_value(s.last())
    }
}

/// The value of `s` read as an unsigned decimal number no larger than `max`:
/// an optional `+`, then at least one digit and nothing else.
pub open spec fn parse_unsigned(s: Seq<char>, max: nat) -> Option<nat> {
    let d = if s.len() > 0 && s[0] == '+' {
        s.drop_first()
    } else {
        s
    };
    if d.len() > 0 && all_digits(d) && digits_value(d) <= max {
        Some(digits_value(d))
    } else {
        None
    }
}

pub open spec fn digit_char(d: nat) -> char {
    if d == 0 {
        '0'
    } else if d == 1 {
        '1'
    } else if d == 2 {
        '2'
    } else if d == 3 {
        '3'
    } else if d == 4 {
        '4'
    } else if d == 5 {
        '5'
    } else if d == 6 {
        '6'
    } else if d == 7 {
        '7'
    } else if d == 8 {
        '8'
    } else {
        '9'
    }
}

/// The decimal digits of `n`, without leading zeros.
pub open spec fn decimal(n: nat) -> Seq<char>
    decreases n,
{
    if n < 10 {
        seq![digit_char(n)]
    } else {
        decimal(n / 10).push(digit_char(n % 10))
    }
}

pub fn is_whitespace_char(c: char) -> (r: bool)
    ensures
        r == is_ws(c),
{
    let u = c as u32;
    (0x09 <= u && u <= 0x0D) || u == 0x20 || u == 0x85 || u == 0xA0 || u == 0x1680 || (0x2000
        <= u && u <= 0x200A) || u == 0x2028 || u == 0x2029 || u == 0x202F || u == 0x205F || u
        == 0x3000
}

/// The characters of `s`.
pub fn chars_of(s: &str) -> (r: Vec<char>)
    ensures
        r@ == s@,
{
    let mut r: Vec<char> = Vec::new();
    for c in it: s.chars()
        invariant
            r@ == it.history(),
    {
        r.push(c);
    }
    r
}

/// The characters `from..to` of `s` as a new string.
pub fn substring(s: &str, from: usize, to: usize) -> (r: String)
    requires
        from <= to <= s@.len(),
    ensures
        r@ == s@.subrange(from as int, to as int),
{
    s.substring_char(from, to).to_owned()
}

/// The bounds of `trim(cs)` inside `cs`.
pub fn trim_bounds(cs: &Vec<char>) -> (r: (usize, usize))
    ensures
        r.0 <= r.1 <= cs@.len(),
        cs@.subrange(r.0 as int, r.1 as int) == trim(cs@),
{
    let mut start: usize = 0;
    let mut end: usize = 0;
    let mut i: usize = 0;
    while i < cs.len()
        invariant
            i <= cs@.len(),
            start == ws_prefix_len(cs@.take(i as int)),
            end == content_end(cs@.take(i as int)),
            start <= i,
            end <= i,
            forall|j: int| 0 <= j < start ==> is_ws(#[trigger] cs@[j]),
            start < i ==> !is_ws(cs@[start as int]),
            end > 0 ==> !is_ws(cs@[end - 1]),
            end > 0 ==> start < end,
        decreases cs.len() - i,
    {
        let c = cs[i];
        let ws = is_whitespace_char(c);
        assert(cs@.take(i + 1).drop_last() == cs@.take(i as int));
        if start == i && ws {
            start = i + 1;
        }
        if !ws {
            end = i + 1;
        }
        i = i + 1;
    }
    assert(cs@.take(i as int) == cs@);
    if start >= end {
        assert(trim(cs@) == Seq::<char>::empty());
        (0, 0)
    } else {
        (start, end)
    }
}

/// `s` without leading and trailing whitespace.
pub fn trimmed(s: &str) -> (r: String)
    ensures
        r@ == trim(s@),
{
    let cs = chars_of(s);
    let (a, b) = trim_bounds(&cs);
    substring(s, a, b)
}

/// Position of the first `c` in `cs`.
pub fn find_char(cs: &Vec<char>, c: char) -> (r: Option<usize>)
    ensures
        match index_of(cs@, c) {
            Some(i) => r == Some(i as usize),
            None => r is None,
        },
        index_of(cs@, c) matches Some(i) ==> 0 <= i < cs@.len() && cs@[i] == c,
        r matches Some(i) ==> i < cs.len() && cs@[i as int] == c,
{
    let mut i: usize = 0;
    while i < cs.len()
        invariant
            i <= cs@.len(),
            index_of(cs@.take(i as int), c) is None,
        decreases cs.len() - i,
    {
        assert(cs@.take(i + 1).drop_last() == cs@.take(i as int));
        if cs[i] == c {
            proof {
                lemma_index_of_extends(cs@, c, i as int + 1);
            }
            return Some(i);
        }
        i = i + 1;
    }
    assert(cs@.take(i as int) == cs@);
    None
}

/// Once `c` occurs in a prefix, the whole sequence has its first `c` at the same place.
pub proof fn lemma_index_of_extends(s: Seq<char>, c: char, n: int)
    requires
        0 <= n <= s.len(),
        index_of(s.take(n), c) is Some,
    ensures
        index_of(s, c) == index_of(s.take(n), c),
        index_of(s, c) matches Some(i) ==> 0 <= i < n && s[i] == c,
    decreases s.len() - n,
{
    lemma_index_of_found(s.take(n), c);
    if n < s.len() {
        assert(s.take(n + 1).drop_last() == s.take(n));
        lemma_index_of_extends(s, c, n + 1);
    } else {
        assert(s.take(n) == s);
    }
}

pub proof fn lemma_index_of_found(s: Seq<char>, c: char)
    ensures
        index_of(s, c) matches Some(i) ==> 0 <= i < s.len() && s[i] == c,
    decreases s.len(),
{
    if s.len() > 0 {
        lemma_index_of_found(s.drop_last(), c);
    }
}

/// The pieces of `s` between occurrences of `c`.
pub fn split_char(s: &str, c: char) -> (r: Vec<String>)
    ensures
        r.deep_view() == split_on(s@, c),
{
    let cs = chars_of(s);
    let mut r: Vec<String> = Vec::new();
    let mut start: usize = 0;
    let mut i: usize = 0;
    assert(r.deep_view().push(cs@.subrange(0, 0)) =~= split_on(cs@.take(0), c)) by {
        assert(cs@.take(0) =~= Seq::<char>::empty());
    }
    while i < cs.len()
        invariant
            cs@ == s@,
            start <= i <= cs@.len(),
            r.deep_view().push(cs@.subrange(start as int, i as int)) == split_on(
                cs@.take(i as int),
                c,
            ),
        decreases cs.len() - i,
    {
        let ghost prev = r.deep_view();
        assert(cs@.take(i + 1).drop_last() == cs@.take(i as int));
        if cs[i] == c {
            let piece = substring(s, start, i);
            r.push(piece);
            assert(r.deep_view() =~= prev.push(cs@.subrange(start as int, i as int)));
            start = i + 1;
            assert(cs@.subrange(start as int, i + 1) =~= Seq::<char>::empty());
        } else {
            assert(cs@.subrange(start as int, i + 1) =~= cs@.subrange(start as int, i as int).push(
                cs@[i as int],
            ));
        }
        i = i + 1;
        assert(r.deep_view().push(cs@.subrange(start as int, i as int)) =~= split_on(
            cs@.take(i as int),
            c,
        ));
    }
    let last = substring(s, start, i);
    let ghost prev = r.deep_view();
    r.push(last);
    assert(cs@.take(i as int) == cs@);
    assert(r.deep_view() =~= prev.push(cs@.subrange(start as int, i as int)));
    r
}

/// The lines of `s` separated by `\r\n`.
pub fn split_crlf_exec(s: &str) -> (r: Vec<String>)
    ensures
        r.deep_view() == split_crlf(s@),
{
    let cs = chars_of(s);
    let n = cs.len();
    let mut r: Vec<String> = Vec::new();
    let mut start: usize = 0;
    let mut i: usize = 0;
    assert(r.deep_view().push(cs@.subrange(0, 0)) =~= split_crlf(cs@.take(0))) by {
        assert(cs@.take(0) =~= Seq::<char>::empty());
    }
    while i < n
        invariant
            n == cs@.len(),
            cs@ == s@,
            start <= i <= n,
            i > 0 && i < n && cs@[i - 1] == '\r' ==> cs@[i as int] != '\n',
            r.deep_view().push(cs@.subrange(start as int, i as int)) == split_crlf(
                cs@.take(i as int),
            ),
        decreases n - i,
    {
        let ghost prev = r.deep_view();
        if i + 1 < n && cs[i] == '\r' && cs[i + 1] == '\n' {
            let piece = substring(s, start, i);
            r.push(piece);
            assert(r.deep_view() =~= prev.push(cs@.subrange(start as int, i as int)));
            assert(cs@.take(i + 2).subrange(0, i as int) =~= cs@.take(i as int));
            start = i + 2;
            i = i + 2;
            assert(cs@.subrange(start as int, i as int) =~= Seq::<char>::empty());
        } else {
            assert(cs@.take(i + 1).drop_last() == cs@.take(i as int));
            assert(cs@.subrange(start as int, i + 1) =~= cs@.subrange(start as int, i as int).push(
                cs@[i as int],
            ));
            i = i + 1;
        }
        assert(r.deep_view().push(cs@.subrange(start as int, i as int)) =~= split_crlf(
            cs@.take(i as int),
        ));
    }
    let last = substring(s, start, i);
    let ghost prev = r.deep_view();
    r.push(last);
    assert(cs@.take(i as int) == cs@);
    assert(r.deep_view() =~= prev.push(cs@.subrange(start as int, i as int)));
    r
}

/// `s` cut at its first `c`.
pub fn split_once_char(s: &str, c: char) -> (r: Option<(String, String)>)
    ensures
        match split_once(s@, c) {
            Some((a, b)) => r matches Some((x, y)) && x@ == a && y@ == b,
            None => r is None,
        },
{
    let cs = chars_of(s);
    match find_char(&cs, c) {
        Some(i) => Some((substring(s, 0, i), substring(s, i + 1, cs.len()))),
        None => None,
    }
}

/// Whether `pat` occurs at position `k` of `s`.
pub fn occurs_at_exec(s: &Vec<char>, pat: &Vec<char>, k: usize) -> (r: bool)
    ensures
        r == occurs_at(s@, pat@, k as int),
{
    if pat.len() > s.len() || k > s.len() - pat.len() {
        return false;
    }
    let mut j: usize = 0;
    while j < pat.len()
        invariant
            k + pat@.len() <= s@.len(),
            j <= pat@.len(),
            forall|m: int| 0 <= m < j ==> s@[k + m] == pat@[m],
        decreases pat.len() - j,
    {
        assert(k + j < s.len());
        if s[k + j] != pat[j] {
            assert(s@.subrange(k as int, k + pat@.len())[j as int] != pat@[j as int]);
            return false;
        }
        j = j + 1;
    }
    assert(s@.subrange(k as int, k + pat@.len()) =~= pat@);
    true
}

/// Whether `pat` occurs somewhere in `s`.
pub fn contains_exec(s: &Vec<char>, pat: &Vec<char>) -> (r: bool)
    ensures
        r == contains_text(s@, pat@),
{
    if pat.len() == 0 {
        assert(s@.subrange(0, 0) =~= pat@);
        assert(occurs_at(s@, pat@, 0));
        return true;
    }
    let mut k: usize = 0;
    while k < s.len()
        invariant
            pat@.len() > 0,
            forall|m: int| 0 <= m < k ==> !occurs_at(s@, pat@, m),
        decreases s.len() + 1 - k,
    {
        if occurs_at_exec(s, pat, k) {
            return true;
        }
        k = k + 1;
    }
    assert forall|m: int| !occurs_at(s@, pat@, m) by {
        if 0 <= m && m + pat@.len() <= s@.len() {
            assert(m < k);
        }
    }
    false
}

/// Reads `cs` as an unsigned decimal number no larger than `max`.
pub fn parse_unsigned_exec(cs: &Vec<char>, max: usize) -> (r: Option<usize>)
    ensures
        match parse_unsigned(cs@, max as nat) {
            Some(v) => r == Some(v as usize),
            None => r is None,
        },
{
    let start: usize = if cs.len() > 0 && cs[0] == '+' {
        1
    } else {
        0
    };
    let ghost d = if cs@.len() > 0 && cs@[0] == '+' {
        cs@.drop_first()
    } else {
        cs@
    };
    assert(d == cs@.subrange(start as int, cs@.len() as int));
    if start == cs.len() {
        return None;
    }
    let mut acc: usize = 0;
    let mut overflow = false;
    let mut i: usize = start;
    while i < cs.len()
        invariant
            start <= i <= cs@.len(),
            d == cs@.subrange(start as int, cs@.len() as int),
            d == (if cs@.len() > 0 && cs@[0] == '+' {
                cs@.drop_first()
            } else {
                cs@
            }),
            all_digits(d.take(i - start)),
            !overflow ==> acc as nat == digits_value(d.take(i - start)) && acc <= max,
            overflow ==> digits_value(d.take(i - start)) > max,
        decreases cs.len() - i,
    {
        let c = cs[i];
        let ghost k: int = i - start;
        assert(d.take(k + 1).drop_last() == d.take(k));
        assert(d.take(k + 1).last() == c);
        let u = c as u32;
        if !(0x30 <= u && u <= 0x39) {
            assert(!all_digits(d)) by {
                assert(d[k] == c);
            }
            return None;
        }
        let v = (u - 0x30) as usize;
        assert(v as nat == digit_value(c));
        if !overflow {
            if v > max || acc > (max - v) / 10 {
                overflow = true;
                assert(acc * 10 + v > max) by (nonlinear_arith)
                    requires
                        v > max || (v <= max && acc > (max - v) / 10),
                ;
            } else {
                assert(acc * 10 + v <= max) by (nonlinear_arith)
                    requires
                        acc <= (max - v) / 10,
                        v <= max,
                ;
                acc = acc * 10 + v;
            }
        } else {
            assert(digits_value(d.take(k)) * 10 + digit_value(c) > max) by (nonlinear_arith)
                requires
                    digits_value(d.take(k)) > max,
            ;
        }
        assert(all_digits(d.take(k + 1)));
        i = i + 1;
    }
    assert(d.take(i - start) == d);
    if overflow {
        None
    } else {
        Some(acc)
    }
}

/// The digits of `n` are decimal digits that read back as `n`.
pub proof fn lemma_decimal(n: nat)
    ensures
        decimal(n).len() > 0,
        all_digits(decimal(n)),
        digits_value(decimal(n)) == n,
    decreases n,
{
    if n < 10 {
        assert(digit_value(digit_char(n)) == n);
        assert(decimal(n) == seq![digit_char(n)]);
        assert(decimal(n).drop_last() =~= Seq::<char>::empty());
        assert(digits_value(Seq::<char>::empty()) == 0);
        assert(digits_value(decimal(n)) == digits_value(decimal(n).drop_last()) * 10 + digit_value(
            decimal(n).last(),
        ));
    } else {
        lemma_decimal(n / 10);
        let d = decimal(n / 10);
        assert(decimal(n).drop_last() =~= d);
        assert(digit_value(digit_char(n % 10)) == n % 10);
        assert(n == (n / 10) * 10 + n % 10);
        assert(decimal(n).last() == digit_char(n % 10));
        assert(digits_value(decimal(n)) == digits_value(d) * 10 + digit_value(digit_char(n % 10)));
        assert forall|i: int| 0 <= i < decimal(n).len() implies is_digit(#[trigger] decimal(n)[i]) by {
            if i < d.len() {
                assert(decimal(n)[i] == d[i]);
            }
        }
    }
}

/// One whitespace character before some digits is all that trimming removes.
pub proof fn lemma_trim_space_digits(d: Seq<char>)
    requires
        d.len() > 0,
        all_digits(d),
    ensures
        trim(seq![' '] + d) == d,
{
    let s = seq![' '] + d;
    lemma_ws_prefix_one(s);
    assert(!is_ws(s.last())) by {
        assert(s.last() == d[d.len() - 1]);
        assert(is_digit(d[d.len() - 1]));
    }
    assert(s.subrange(1, s.len() as int) =~= d);
}

proof fn lemma_ws_prefix_one(s: Seq<char>)
    requires
        s.len() >= 1,
        is_ws(s[0]),
        forall|i: int| 1 <= i < s.len() ==> is_digit(#[trigger] s[i]),
    ensures
        ws_prefix_len(s) == 1,
    decreases s.len(),
{
    if s.len() == 1 {
        assert(s.drop_last() =~= Seq::<char>::empty());
        assert(ws_prefix_len(s.drop_last()) == 0);
        assert(is_ws(s.last()));
    } else {
        let t = s.drop_last();
        assert forall|i: int| 1 <= i < t.len() implies is_digit(#[trigger] t[i]) by {
            assert(t[i] == s[i]);
        }
        lemma_ws_prefix_one(t);
        assert(is_digit(s[s.len() - 1]));
        assert(!is_ws(s.last()));
        assert(ws_prefix_len(t) == 1);
    }
}

fn digit_str(d: usize) -> (r: &'static str)
    requires
        d < 10,
    ensures
        r@ == seq![digit_char(d as nat)],
{
    proof {
        reveal_strlit("0");
        reveal_strlit("1");
        reveal_strlit("2");
        reveal_strlit("3");
        reveal_strlit("4");
        reveal_strlit("5");
        reveal_strlit("6");
        reveal_strlit("7");
        reveal_strlit("8");
        reveal_strlit("9");
    }
    if d == 0 {
        "0"
    } else if d == 1 {
        "1"
    } else if d == 2 {
        "2"
    } else if d == 3 {
        "3"
    } else if d == 4 {
        "4"
    } else if d == 5 {
        "5"
    } else if d == 6 {
        "6"
    } else if d == 7 {
        "7"
    } else if d == 8 {
        "8"
    } else {
        "9"
    }
}

/// The decimal digits of `n`.
pub fn decimal_string(n: usize) -> (r: String)
    ensures
        r@ == decimal(n as nat),
    decreases n,
{
    if n < 10 {
        String::from_str(digit_str(n))
    } else {
        let mut s = decimal_string(n / 10);
        s.append(digit_str(n % 10));
        s
    }
}

} // verus!
