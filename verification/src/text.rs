//! Character-level text helpers with exact specifications: whitespace trimming, prefix, suffix
//! and substring tests, and decimal integer parsing as the standard library performs it.
use vstd::prelude::*;
use vstd::utf8::*;

verus! {

/// `c` has the Unicode `White_Space` property (what `char::is_whitespace` tests).
pub open spec fn is_ws(c: char) -> bool {
    let u = c as u32;
    ||| 0x09 <= u <= 0x0d
    ||| u == 0x20
    ||| u == 0x85
    ||| u == 0xa0
    ||| u == 0x1680
    ||| 0x2000 <= u <= 0x200a
    ||| u == 0x2028
    ||| u == 0x2029
    ||| u == 0x202f
    ||| u == 0x205f
    ||| u == 0x3000
}

/// `s` without its leading whitespace.
pub open spec fn trim_start(s: Seq<char>) -> Seq<char>
    decreases s.len(),
{
    if s.len() > 0 && is_ws(s[0]) {
        trim_start(s.drop_first())
    } else {
        s
    }
}

/// `s` without its trailing whitespace.
pub open spec fn trim_end(s: Seq<char>) -> Seq<char>
    decreases s.len(),
{
    if s.len() > 0 && is_ws(s.last()) {
        trim_end(s.drop_last())
    } else {
        s
    }
}

/// `s` without leading and trailing whitespace (what `str::trim` returns).
pub open spec fn trim(s: Seq<char>) -> Seq<char> {
    trim_end(trim_start(s))
}

/// `s` begins with `p`.
pub open spec fn has_prefix(s: Seq<char>, p: Seq<char>) -> bool {
    p.len() <= s.len() && s.subrange(0, p.len() as int) == p
}

/// `s` ends with `p`.
pub open spec fn has_suffix(s: Seq<char>, p: Seq<char>) -> bool {
    p.len() <= s.len() && s.subrange(s.len() - p.len(), s.len() as int) == p
}

/// `p` occurs in `s` starting at index `i`.
pub open spec fn occurs_at(s: Seq<char>, p: Seq<char>, i: int) -> bool {
    0 <= i && i + p.len() <= s.len() && s.subrange(i, i + p.len()) == p
}

/// `p` occurs somewhere in `s` (what `str::contains` tests).
pub open spec fn has_infix(s: Seq<char>, p: Seq<char>) -> bool {
    exists|i: int| occurs_at(s, p, i)
}

pub open spec fn is_digit(c: char) -> bool {
    '0' <= c <= '9'
}

pub open spec fn all_digits(t: Seq<char>) -> bool {
    forall|i: int| 0 <= i < t.len() ==> is_digit(#[trigger] t[i])
}

/// Value of a string of decimal digits.
pub open spec fn decimal_value(t: Seq<char>) -> nat
    decreases t.len(),
{
    if t.len() == 0 {
        0
    } else {
        decimal_value(t.drop_last()) * 10 + ((t.last() as u32) - ('0' as u32)) as nat
    }
}

/// Value of the digits of `t` when they are all decimal digits, there is at least one, and the
/// value does not exceed `max`.
pub open spec fn digits_up_to(t: Seq<char>, max: nat) -> Option<nat> {
    if t.len() > 0 && all_digits(t) && decimal_value(t) <= max {
        Some(decimal_value(t))
    } else {
        None
    }
}

/// The digits that follow an optional leading sign character.
pub open spec fn unsigned_body(s: Seq<char>) -> Seq<char> {
    if s.len() > 0 && s[0] == '+' {
        s.drop_first()
    } else {
        s
    }
}

/// What `str::parse::<u16>` yields.
pub open spec fn parse_u16_spec(s: Seq<char>) -> Option<u16> {
    match digits_up_to(unsigned_body(s), u16::MAX as nat) {
        Some(v) => Some(v as u16),
        None => None,
    }
}

/// What `str::parse::<u32>` yields.
pub open spec fn parse_u32_spec(s: Seq<char>) -> Option<u32> {
    match digits_up_to(unsigned_body(s), u32::MAX as nat) {
        Some(v) => Some(v as u32),
        None => None,
    }
}

/// What `str::parse::<i32>` yields.
pub open spec fn parse_i32_spec(s: Seq<char>) -> Option<i32> {
    if s.len() > 0 && s[0] == '-' {
        match digits_up_to(s.drop_first(), 0x8000_0000nat) {
            Some(v) => Some((0 - v) as i32),
            None => None,
        }
    } else {
        match digits_up_to(unsigned_body(s), i32::MAX as nat) {
            Some(v) => Some(v as i32),
            None => None,
        }
    }
}

/// Copies the bytes into a `String` through `std::str::from_utf8`. The contract states what the
/// standard library documents for that function: the bytes are accepted exactly when they are
/// valid UTF-8, and the text then consists of the characters they encode.
#[verifier::external_body]
pub fn utf8_to_string(bytes: &[u8]) -> (r: Option<String>)
    ensures
        r is Some <==> valid_utf8(bytes@),
        r matches Some(t) ==> t@ == decode_utf8(bytes@),
{
    match std::str::from_utf8(bytes) {
        Ok(text) => Some(text.to_owned()),
        Err(_) => None,
    }
}

/// Name for the text `String::from_utf8_lossy` makes of the bytes: valid sequences decoded,
/// each invalid one replaced by U+FFFD.
pub uninterp spec fn utf8_lossy(bytes: Seq<u8>) -> Seq<char>;

/// Decodes the bytes through `String::from_utf8_lossy`. The contract names the result and states
/// what the documentation promises of it: valid UTF-8 is decoded unchanged.
#[verifier::external_body]
pub fn utf8_lossy_string(bytes: &[u8]) -> (r: String)
    ensures
        r@ == utf8_lossy(bytes@),
        valid_utf8(bytes@) ==> r@ == decode_utf8(bytes@),
{
    String::from_utf8_lossy(bytes).into_owned()
}

pub fn is_whitespace(c: char) -> (r: bool)
    ensures
        r == is_ws(c),
{
    let u = c as u32;
    (0x09 <= u && u <= 0x0d) || u == 0x20 || u == 0x85 || u == 0xa0 || u == 0x1680 || (0x2000 <= u
        && u <= 0x200a) || u == 0x2028 || u == 0x2029 || u == 0x202f || u == 0x205f || u == 0x3000
}

/// Removes leading and trailing whitespace.
pub fn trim_str(s: &str) -> (r: &str)
    ensures
        r@ == trim(s@),
{
    let n = s.unicode_len();
    let mut a: usize = 0;
    assert(s@.subrange(0, n as int) =~= s@);
    while a < n && is_whitespace(s.get_char(a))
        invariant
            n == s@.len(),
            a <= n,
            trim_start(s@) == trim_start(s@.subrange(a as int, n as int)),
        decreases n - a,
    {
        assert(s@.subrange(a as int, n as int).drop_first() =~= s@.subrange(a + 1, n as int));
        a = a + 1;
    }
    proof {
        if a == 0 {
            assert(s@.subrange(0, n as int) =~= s@);
        }
    }
    let ghost t = s@.subrange(a as int, n as int);
    assert(trim_start(s@) == t);
    let mut b: usize = n;
    while b > a && is_whitespace(s.get_char(b - 1))
        invariant
            n == s@.len(),
            a <= b <= n,
            t == s@.subrange(a as int, n as int),
            trim_end(t) == trim_end(s@.subrange(a as int, b as int)),
        decreases b - a,
    {
        assert(s@.subrange(a as int, b as int).drop_last() =~= s@.subrange(a as int, b - 1));
        b = b - 1;
    }
    proof {
        assert(s@.subrange(a as int, n as int) =~= t);
    }
    s.substring_char(a, b)
}

/// `s` begins with `prefix`.
pub fn str_starts_with(s: &str, prefix: &str) -> (r: bool)
    ensures
        r == has_prefix(s@, prefix@),
{
    let n = s.unicode_len();
    let m = prefix.unicode_len();
    if m > n {
        return false;
    }
    let mut i: usize = 0;
    while i < m
        invariant
            n == s@.len(),
            m == prefix@.len(),
            m <= n,
            i <= m,
            forall|j: int| 0 <= j < i ==> s@[j] == prefix@[j],
        decreases m - i,
    {
        if s.get_char(i) != prefix.get_char(i) {
            assert(s@.subrange(0, m as int)[i as int] != prefix@[i as int]);
            return false;
        }
        i = i + 1;
    }
    assert(s@.subrange(0, m as int) =~= prefix@);
    true
}

/// `s` ends with `suffix`.
pub fn str_ends_with(s: &str, suffix: &str) -> (r: bool)
    ensures
        r == has_suffix(s@, suffix@),
{
    let n = s.unicode_len();
    let m = suffix.unicode_len();
    if m > n {
        return false;
    }
    let off = n - m;
    let mut i: usize = 0;
    while i < m
        invariant
            n == s@.len(),
            m == suffix@.len(),
            off + m == n,
            i <= m,
            forall|j: int| 0 <= j < i ==> s@[off + j] == suffix@[j],
        decreases m - i,
    {
        if s.get_char(off + i) != suffix.get_char(i) {
            assert(s@.subrange(off as int, n as int)[i as int] != suffix@[i as int]);
            return false;
        }
        i = i + 1;
    }
    assert(s@.subrange(off as int, n as int) =~= suffix@);
    true
}

/// `pat` occurs in `s` at character index `i`.
fn occurs_at_exec(s: &str, pat: &str, i: usize, n: usize, m: usize) -> (r: bool)
    requires
        n == s@.len(),
        m == pat@.len(),
        i + m <= n,
    ensures
        r == occurs_at(s@, pat@, i as int),
{
    let mut k: usize = 0;
    while k < m
        invariant
            n == s@.len(),
            m == pat@.len(),
            i + m <= n,
            k <= m,
            forall|j: int| 0 <= j < k ==> s@[i + j] == pat@[j],
        decreases m - k,
    {
        if s.get_char(i + k) != pat.get_char(k) {
            assert(s@.subrange(i as int, i + m)[k as int] != pat@[k as int]);
            return false;
        }
        k = k + 1;
    }
    assert(s@.subrange(i as int, i + m) =~= pat@);
    true
}

/// `pat` occurs in `s`.
pub fn str_contains(s: &str, pat: &str) -> (r: bool)
    ensures
        r == has_infix(s@, pat@),
{
    let n = s.unicode_len();
    let m = pat.unicode_len();
    if m > n {
        return false;
    }
    if m == 0 {
        assert(s@.subrange(0, 0) =~= pat@);
        assert(occurs_at(s@, pat@, 0));
        return true;
    }
    let last = n - m;
    let mut i: usize = 0;
    while i <= last
        invariant
            n == s@.len(),
            m == pat@.len(),
            last + m == n,
            m > 0,
            i <= last + 1,
            forall|j: int| 0 <= j < i ==> !occurs_at(s@, pat@, j),
        decreases last + 1 - i,
    {
        if occurs_at_exec(s, pat, i, n, m) {
            return true;
        }
        i = i + 1;
    }
    assert forall|j: int| !occurs_at(s@, pat@, j) by {
        if 0 <= j && j + m <= n {
            assert(j < i);
        }
    }
    false
}

proof fn lemma_decimal_prefix_le(t: Seq<char>, i: int)
    requires
        all_digits(t),
        0 <= i <= t.len(),
    ensures
        decimal_value(t.subrange(0, i)) <= decimal_value(t),
    decreases t.len(),
{
    if i < t.len() {
        let d = t.drop_last();
        assert(all_digits(d)) by {
            assert forall|k: int| 0 <= k < d.len() implies is_digit(#[trigger] d[k]) by {
                assert(d[k] == t[k]);
            }
        }
        lemma_decimal_prefix_le(d, i);
        assert(d.subrange(0, i) =~= t.subrange(0, i));
    } else {
        assert(t.subrange(0, i) =~= t);
    }
}

/// Parses the characters of `s` from index `from` on as decimal digits whose value may not
/// exceed `max`.
fn parse_digits(s: &str, from: usize, max: u64) -> (r: Option<u64>)
    requires
        from <= s@.len(),
        max <= 0x1_0000_0000,
    ensures
        r == (match digits_up_to(s@.subrange(from as int, s@.len() as int), max as nat) {
            Some(v) => Some(v as u64),
            None => None::<u64>,
        }),
{
    let ghost t = s@.subrange(from as int, s@.len() as int);
    let n = s.unicode_len();
    if from == n {
        return None;
    }
    let mut acc: u64 = 0;
    let mut i: usize = from;
    while i < n
        invariant
            n == s@.len(),
            from < n,
            from <= i <= n,
            max <= 0x1_0000_0000,
            t == s@.subrange(from as int, n as int),
            all_digits(t.subrange(0, i - from)),
            acc == decimal_value(t.subrange(0, i - from)),
            acc <= max,
        decreases n - i,
    {
        let c = s.get_char(i);
        assert(c == t[i - from]);
        if !('0' <= c && c <= '9') {
            assert(!all_digits(t));
            return None;
        }
        let d = (c as u32 - '0' as u32) as u64;
        assert(t.subrange(0, i - from + 1).drop_last() =~= t.subrange(0, i - from));
        let next = acc * 10 + d;
        assert(all_digits(t.subrange(0, i - from + 1))) by {
            let u = t.subrange(0, i - from + 1);
            assert forall|k: int| 0 <= k < u.len() implies is_digit(#[trigger] u[k]) by {
                if k < i - from {
                    assert(u[k] == t.subrange(0, i - from)[k]);
                }
            }
        }
        if next > max {
            proof {
                if all_digits(t) {
                    lemma_decimal_prefix_le(t, i - from + 1);
                }
            }
            return None;
        }
        acc = next;
        i = i + 1;
    }
    assert(t.subrange(0, n - from) =~= t);
    Some(acc)
}

/// Parses `s` as `str::parse::<u16>` does.
pub fn parse_u16(s: &str) -> (r: Option<u16>)
    ensures
        r == parse_u16_spec(s@),
{
    let n = s.unicode_len();
    let from: usize = if n > 0 && s.get_char(0) == '+' { 1 } else { 0 };
    assert(unsigned_body(s@) =~= s@.subrange(from as int, n as int));
    match parse_digits(s, from, 0xffff) {
        Some(v) => Some(v as u16),
        None => None,
    }
}

/// Parses `s` as `str::parse::<u32>` does.
pub fn parse_u32(s: &str) -> (r: Option<u32>)
    ensures
        r == parse_u32_spec(s@),
{
    let n = s.unicode_len();
    let from: usize = if n > 0 && s.get_char(0) == '+' { 1 } else { 0 };
    assert(unsigned_body(s@) =~= s@.subrange(from as int, n as int));
    match parse_digits(s, from, 0xffff_ffff) {
        Some(v) => Some(v as u32),
        None => None,
    }
}

/// Parses `s` as `str::parse::<i32>` does.
pub fn parse_i32(s: &str) -> (r: Option<i32>)
    ensures
        r == parse_i32_spec(s@),
{
    let n = s.unicode_len();
    if n > 0 && s.get_char(0) == '-' {
        assert(s@.drop_first() =~= s@.subrange(1, n as int));
        match parse_digits(s, 1, 0x8000_0000) {
            Some(v) => {
                let neg: i64 = 0 - (v as i64);
                Some(neg as i32)
            },
            None => None,
        }
    } else {
        let from: usize = if n > 0 && s.get_char(0) == '+' { 1 } else { 0 };
        assert(unsigned_body(s@) =~= s@.subrange(from as int, n as int));
        match parse_digits(s, from, 0x7fff_ffff) {
            Some(v) => Some(v as i32),
            None => None,
        }
    }
}

pub open spec fn digit_char(d: nat) -> char {
    seq!['0', '1', '2', '3', '4', '5', '6', '7', '8', '9'][d as int]
}

/// Decimal notation of `n`, without sign or leading zeros.
pub open spec fn decimal_digits(n: nat) -> Seq<char>
    decreases n,
{
    if n < 10 {
        seq![digit_char(n)]
    } else {
        decimal_digits(n / 10).push(digit_char(n % 10))
    }
}

fn digit_str(d: usize) -> (r: &'static str)
    requires
        d < 10,
    ensures
        r@ == seq![digit_char(d as nat)],
{
    proof {
        reveal_strlit("0");
        reveal_strlit("1");
        reveal_strlit("2");
        reveal_strlit("3");
        reveal_strlit("4");
        reveal_strlit("5");
        reveal_strlit("6");
        reveal_strlit("7");
        reveal_strlit("8");
        reveal_strlit("9");
    }
    match d {
        0 => "0",
        1 => "1",
        2 => "2",
        3 => "3",
        4 => "4",
        5 => "5",
        6 => "6",
        7 => "7",
        8 => "8",
        _ => "9",
    }
}

/// The decimal notation of `n` (what `to_string` gives).
pub fn decimal_string(n: usize) -> (r: String)
    ensures
        r@ == decimal_digits(n as nat),
    decreases n,
{
    if n < 10 {
        String::from_str(digit_str(n))
    } else {
        let mut s = decimal_string(n / 10);
        s.append(digit_str(n % 10));
        s
    }
}

proof fn lemma_digit_char(d: nat)
    requires
        d < 10,
    ensures
        (digit_char(d) as u32) - ('0' as u32) == d,
        is_digit(digit_char(d)),
{
    let s = seq!['0', '1', '2', '3', '4', '5', '6', '7', '8', '9'];
    assert(s[0] == '0' && s[1] == '1' && s[2] == '2' && s[3] == '3' && s[4] == '4');
    assert(s[5] == '5' && s[6] == '6' && s[7] == '7' && s[8] == '8' && s[9] == '9');
}

pub proof fn lemma_decimal_digits(n: nat)
    ensures
        decimal_digits(n).len() > 0,
        all_digits(decimal_digits(n)),
        decimal_value(decimal_digits(n)) == n,
        decimal_digits(n)[0] != '+' && decimal_digits(n)[0] != '-',
    decreases n,
{
    let s = decimal_digits(n);
    lemma_digit_char(n % 10);
    if n < 10 {
        assert(s.drop_last() =~= Seq::<char>::empty());
        assert(s.last() == digit_char(n));
        assert(n % 10 == n);
        assert(decimal_value(s) == decimal_value(s.drop_last()) * 10 + ((s.last() as u32) - ('0' as u32)) as nat);
    } else {
        lemma_decimal_digits(n / 10);
        let t = decimal_digits(n / 10);
        assert(s.drop_last() =~= t);
        assert(s.last() == digit_char(n % 10));
        assert(decimal_value(s) == decimal_value(t) * 10 + ((s.last() as u32) - ('0' as u32)) as nat);
        assert(n == (n / 10) * 10 + n % 10);
        assert forall|i: int| 0 <= i < s.len() implies is_digit(#[trigger] s[i]) by {
            if i < t.len() {
                assert(s[i] == t[i]);
            }
        }
    }
}


/// The words of `s[i..]` (maximal runs without whitespace), given the run `s[start..i]` being
/// read and the words `acc` already complete.
pub open spec fn words_from(s: Seq<char>, i: int, start: int, acc: Seq<Seq<char>>) -> Seq<
    Seq<char>,
>
    decreases s.len() - i,
{
    if i >= s.len() {
        if start < s.len() {
            acc.push(s.subrange(start, s.len() as int))
        } else {
            acc
        }
    } else if is_ws(s[i]) {
        words_from(
            s,
            i + 1,
            i + 1,
            if start < i {
                acc.push(s.subrange(start, i))
            } else {
                acc
            },
        )
    } else {
        words_from(s, i + 1, start, acc)
    }
}

/// The words of `s`, separated by whitespace (what `str::split_whitespace` yields).
pub open spec fn words(s: Seq<char>) -> Seq<Seq<char>> {
    words_from(s, 0, 0, Seq::empty())
}

/// The views of a list of strings.
pub open spec fn str_views(v: Seq<String>) -> Seq<Seq<char>> {
    v.map_values(|t: String| t@)
}

/// The words of `s`.
pub fn split_words(s: &str) -> (r: Vec<String>)
    ensures
        str_views(r@) == words(s@),
{
    let n = s.unicode_len();
    let mut acc: Vec<String> = Vec::new();
    let mut start: usize = 0;
    let mut i: usize = 0;
    assert(str_views(acc@) =~= Seq::<Seq<char>>::empty());
    while i < n
        invariant
            n == s@.len(),
            start <= i <= n,
            words(s@) == words_from(s@, i as int, start as int, str_views(acc@)),
        decreases n - i,
    {
        if is_whitespace(s.get_char(i)) {
            if start < i {
                let w = String::from_str(s.substring_char(start, i));
                let ghost pre = str_views(acc@);
                acc.push(w);
                assert(str_views(acc@) =~= pre.push(s@.subrange(start as int, i as int)));
            }
            start = i + 1;
        }
        i = i + 1;
    }
    if start < n {
        let w = String::from_str(s.substring_char(start, n));
        let ghost pre = str_views(acc@);
        acc.push(w);
        assert(str_views(acc@) =~= pre.push(s@.subrange(start as int, n as int)));
    }
    acc
}

/// A line as `str::lines` gives it: the text before a line feed, without a carriage return
/// right before that line feed.
pub open spec fn without_cr(l: Seq<char>) -> Seq<char> {
    if l.len() > 0 && l.last() == '\r' {
        l.drop_last()
    } else {
        l
    }
}

/// The lines of `s[i..]`, given the line `s[start..i]` being read and the lines `acc` already
/// complete.
pub open spec fn lines_from(s: Seq<char>, i: int, start: int, acc: Seq<Seq<char>>) -> Seq<
    Seq<char>,
>
    decreases s.len() - i,
{
    if i >= s.len() {
        if start < s.len() {
            acc.push(s.subrange(start, s.len() as int))
        } else {
            acc
        }
    } else if s[i] == '\n' {
        lines_from(s, i + 1, i + 1, acc.push(without_cr(s.subrange(start, i))))
    } else {
        lines_from(s, i + 1, start, acc)
    }
}

/// The lines of `s` (what `str::lines` yields): split at each line feed, a final line feed
/// starting no further line.
pub open spec fn lines(s: Seq<char>) -> Seq<Seq<char>> {
    lines_from(s, 0, 0, Seq::empty())
}

/// The lines of `s`.
pub fn split_lines(s: &str) -> (r: Vec<String>)
    ensures
        str_views(r@) == lines(s@),
{
    let n = s.unicode_len();
    let mut acc: Vec<String> = Vec::new();
    let mut start: usize = 0;
    let mut i: usize = 0;
    assert(str_views(acc@) =~= Seq::<Seq<char>>::empty());
    while i < n
        invariant
            n == s@.len(),
            start <= i <= n,
            lines(s@) == lines_from(s@, i as int, start as int, str_views(acc@)),
        decreases n - i,
    {
        if s.get_char(i) == '\n' {
            let end: usize = if i > start && s.get_char(i - 1) == '\r' {
                i - 1
            } else {
                i
            };
            let w = String::from_str(s.substring_char(start, end));
            let ghost pre = str_views(acc@);
            acc.push(w);
            assert(without_cr(s@.subrange(start as int, i as int)) =~= s@.subrange(
                start as int,
                end as int,
            ));
            assert(str_views(acc@) =~= pre.push(without_cr(s@.subrange(start as int, i as int))));
            start = i + 1;
        }
        i = i + 1;
    }
    if start < n {
        let w = String::from_str(s.substring_char(start, n));
        let ghost pre = str_views(acc@);
        acc.push(w);
        assert(str_views(acc@) =~= pre.push(s@.subrange(start as int, n as int)));
    }
    acc
}

/// `s[i..]` with every occurrence of the non-empty `p` removed, scanning from the left (what
/// `str::replace(p, "")` gives).
pub open spec fn remove_from(s: Seq<char>, p: Seq<char>, i: int) -> Seq<char>
    decreases s.len() - i,
{
    if i >= s.len() || p.len() == 0 {
        s.subrange(i, s.len() as int)
    } else if occurs_at(s, p, i) {
        remove_from(s, p, i + p.len())
    } else {
        seq![s[i]] + remove_from(s, p, i + 1)
    }
}

/// `s` with every occurrence of `p` removed; an empty `p` leaves `s` as it is.
pub open spec fn remove_all(s: Seq<char>, p: Seq<char>) -> Seq<char> {
    if p.len() == 0 {
        s
    } else {
        remove_from(s, p, 0)
    }
}

/// `s` with every occurrence of `p` removed.
pub fn remove_all_str(s: &str, p: &str) -> (r: String)
    ensures
        r@ == remove_all(s@, p@),
{
    let n = s.unicode_len();
    let m = p.unicode_len();
    if m == 0 {
        return String::from_str(s);
    }
    let mut out = String::new();
    let mut i: usize = 0;
    while i < n
        invariant
            n == s@.len(),
            m == p@.len(),
            m > 0,
            i <= n,
            remove_all(s@, p@) == out@ + remove_from(s@, p@, i as int),
        decreases n - i,
    {
        if m <= n - i && occurs_at_exec(s, p, i, n, m) {
            i = i + m;
        } else {
            proof {
                if i + m > n {
                    assert(!occurs_at(s@, p@, i as int));
                }
            }
            let ghost pre = out@;
            out.append(s.substring_char(i, i + 1));
            assert(out@ =~= pre + seq![s@[i as int]]);
            assert(pre + (seq![s@[i as int]] + remove_from(s@, p@, i + 1)) =~= out@ + remove_from(
                s@,
                p@,
                i + 1,
            ));
            i = i + 1;
        }
    }
    assert(s@.subrange(n as int, n as int) =~= Seq::<char>::empty());
    assert(out@ + Seq::<char>::empty() =~= out@);
    out
}

/// `s` with every `a` replaced by `b`.
pub open spec fn replace_char(s: Seq<char>, a: char, b: char) -> Seq<char> {
    s.map_values(|c: char| if c == a { b } else { c })
}

/// `s` with every `a` replaced by the one character of `b`.
pub fn replace_char_str(s: &str, a: char, b: &str) -> (r: String)
    requires
        b@.len() == 1,
    ensures
        r@ == replace_char(s@, a, b@[0]),
{
    let ghost bc = b@[0];
    let n = s.unicode_len();
    let mut out = String::new();
    let mut i: usize = 0;
    let mut start: usize = 0;
    while i < n
        invariant
            n == s@.len(),
            start <= i <= n,
            b@.len() == 1,
            bc == b@[0],
            out@ + s@.subrange(start as int, i as int) == replace_char(s@.subrange(0, i as int), a, bc),
        decreases n - i,
    {
        let ghost pre = s@.subrange(0, i as int);
        assert(s@.subrange(0, i + 1) =~= pre.push(s@[i as int]));
        assert(replace_char(pre.push(s@[i as int]), a, bc) =~= replace_char(pre, a, bc).push(
            if s@[i as int] == a { bc } else { s@[i as int] },
        ));
        if s.get_char(i) == a {
            let ghost o = out@;
            out.append(s.substring_char(start, i));
            out.append(b);
            assert(b@ =~= seq![bc]);
            assert(out@ =~= o + s@.subrange(start as int, i as int) + seq![bc]);
            start = i + 1;
            assert(s@.subrange(start as int, i + 1) =~= Seq::<char>::empty());
        } else {
            assert(s@.subrange(start as int, i + 1) =~= s@.subrange(start as int, i as int).push(
                s@[i as int],
            ));
        }
        i = i + 1;
    }
    out.append(s.substring_char(start, n));
    assert(s@.subrange(0, n as int) =~= s@);
    out
}


/// Name for what `str::to_lowercase` makes of a text: each character mapped to its Unicode
/// lowercase form.
pub uninterp spec fn lowercase(s: Seq<char>) -> Seq<char>;

/// Lowercases the text through `str::to_lowercase`; the result is named, not stated.
#[verifier::external_body]
pub fn to_lowercase_str(s: &str) -> (r: String)
    ensures
        r@ == lowercase(s@),
{
    s.to_lowercase()
}


/// The pieces of `s[i..]` between occurrences of `c`, given the piece `s[start..i]` being read
/// and the pieces `acc` already complete.
pub open spec fn split_from(s: Seq<char>, c: char, i: int, start: int, acc: Seq<Seq<char>>) -> Seq<
    Seq<char>,
>
    decreases s.len() - i,
{
    if i >= s.len() {
        acc.push(s.subrange(start, s.len() as int))
    } else if s[i] == c {
        split_from(s, c, i + 1, i + 1, acc.push(s.subrange(start, i)))
    } else {
        split_from(s, c, i + 1, start, acc)
    }
}

/// The pieces of `s` between occurrences of `c` (what `str::split(c)` yields).
pub open spec fn split_char(s: Seq<char>, c: char) -> Seq<Seq<char>> {
    split_from(s, c, 0, 0, Seq::empty())
}

/// The pieces of `s` between occurrences of `c`.
pub fn split_on_char(s: &str, c: char) -> (r: Vec<String>)
    ensures
        str_views(r@) == split_char(s@, c),
{
    let n = s.unicode_len();
    let mut acc: Vec<String> = Vec::new();
    let mut start: usize = 0;
    let mut i: usize = 0;
    assert(str_views(acc@) =~= Seq::<Seq<char>>::empty());
    while i < n
        invariant
            n == s@.len(),
            start <= i <= n,
            split_char(s@, c) == split_from(s@, c, i as int, start as int, str_views(acc@)),
        decreases n - i,
    {
        if s.get_char(i) == c {
            let w = String::from_str(s.substring_char(start, i));
            let ghost pre = str_views(acc@);
            acc.push(w);
            assert(str_views(acc@) =~= pre.push(s@.subrange(start as int, i as int)));
            start = i + 1;
        }
        i = i + 1;
    }
    let w = String::from_str(s.substring_char(start, n));
    let ghost pre = str_views(acc@);
    acc.push(w);
    assert(str_views(acc@) =~= pre.push(s@.subrange(start as int, n as int)));
    acc
}

} // verus!
