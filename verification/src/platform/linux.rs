//! Linux host logic: reading process environments, focus and cursor geometry, user sessions.
use vstd::prelude::*;
use vstd::utf8::*;
use crate::text::{
    all_digits, has_infix, has_prefix, is_digit, lines, parse_u32, parse_u32_spec, split_lines,
    str_contains, str_starts_with, str_views, trim, trim_str, utf8_lossy, utf8_lossy_string,
    utf8_to_string, decimal_digits, decimal_string, lowercase, parse_i32, parse_i32_spec,
    to_lowercase_str, split_words, words, split_char, split_on_char,
};
use crate::pattern::{
    opt_view, regex_compiles, regex_first_group, regex_group_pairs, regex_is_match, Pattern,
};

pub mod desktop;

verus! {

/// One entry of the process directory, as read from the file system.
pub struct ProcEntry {
    /// The entry's file name, when it is valid Unicode.
    pub file_name: Option<String>,
    /// Owner uid of the entry, when its metadata could be read.
    pub uid: Option<u32>,
    /// Contents of the process's `cmdline` file, when readable.
    pub cmdline: Option<Vec<u8>>,
    /// Contents of the process's `environ` file, when readable.
    pub environ: Option<Vec<u8>>,
}

/// The names, as character sequences.
pub open spec fn name_seq(names: Seq<&str>) -> Seq<Seq<char>> {
    names.map_values(|n: &str| n@)
}

/// A value per name, all empty.
pub open spec fn empty_values(n: nat) -> Seq<Seq<char>> {
    Seq::new(n, |i: int| Seq::<char>::empty())
}

/// `s` with every NUL character shown as a space.
pub open spec fn nul_as_space(s: Seq<char>) -> Seq<char> {
    s.map_values(|c: char| if c == '\0' { ' ' } else { c })
}

/// The command line as it is matched: its bytes decoded lossily, NUL separators shown as spaces.
pub open spec fn cmdline_text(cmdline: Seq<u8>) -> Seq<char> {
    nul_as_space(utf8_lossy(cmdline))
}

/// The entry is a process (all-digit name) of user `uid` whose command line matches `pattern`
/// and whose environment could be read.
pub open spec fn entry_matches(e: ProcEntry, uid: u32, pattern: Seq<char>) -> bool {
    &&& e.file_name matches Some(n) && all_digits(n@)
    &&& e.uid == Some(uid)
    &&& e.cmdline matches Some(c) && regex_is_match(pattern, cmdline_text(c@))
    &&& e.environ is Some
}

/// The environments of the matching entries, in directory order.
pub open spec fn matching_environs(es: Seq<ProcEntry>, uid: u32, pattern: Seq<char>) -> Seq<
    Seq<u8>,
>
    decreases es.len(),
{
    if es.len() == 0 {
        seq![]
    } else {
        let rest = matching_environs(es.drop_last(), uid, pattern);
        if entry_matches(es.last(), uid, pattern) {
            rest.push(es.last().environ.unwrap()@)
        } else {
            rest
        }
    }
}

/// Index of the first byte `b` in `e`, or `e.len()` when there is none.
pub open spec fn first_byte_index(e: Seq<u8>, b: u8) -> int
    decreases e.len(),
{
    if e.len() == 0 {
        0
    } else if e[0] == b {
        0
    } else {
        1 + first_byte_index(e.drop_first(), b)
    }
}

/// The NUL-separated parts of `e` (what `split` on NUL bytes yields).
pub open spec fn nul_parts(e: Seq<u8>) -> Seq<Seq<u8>>
    decreases e.len(),
{
    let k = first_byte_index(e, 0);
    if k < 0 || k >= e.len() {
        seq![e]
    } else {
        seq![e.subrange(0, k)] + nul_parts(e.subrange(k + 1, e.len() as int))
    }
}

/// Last index at which `key` occurs among the names, or -1.
pub open spec fn last_index_of(names: Seq<Seq<char>>, key: Seq<char>) -> int
    decreases names.len(),
{
    if names.len() == 0 {
        -1
    } else if names.last() == key {
        names.len() - 1
    } else {
        last_index_of(names.drop_last(), key)
    }
}

/// State of a scan of one environment: a value per name, how many values were filled in,
/// the bit mask of filled names (earlier names on higher bits), and whether the scan stopped
/// because the count reached the number of names.
pub struct EnvScan {
    pub values: Seq<Seq<char>>,
    pub count: nat,
    pub mask: u64,
    pub done: bool,
}

pub open spec fn env_init(n: nat) -> EnvScan {
    EnvScan { values: empty_values(n), count: 0, mask: 0, done: false }
}

/// One `KEY=VALUE` part: a key that is one of the names and whose value is still empty takes
/// the value.
pub open spec fn env_step(st: EnvScan, part: Seq<u8>, names: Seq<Seq<char>>) -> EnvScan {
    let e = first_byte_index(part, 0x3d);
    let kb = part.subrange(0, e);
    let key = decode_utf8(kb);
    let idx = last_index_of(names, key);
    if st.done || part.len() == 0 || e >= part.len() || !valid_utf8(kb) || idx < 0
        || st.values[idx].len() != 0 {
        st
    } else {
        let v = utf8_lossy(part.subrange(e + 1, part.len() as int));
        let count = st.count + 1;
        EnvScan {
            values: Seq::new(
                st.values.len(),
                |j: int|
                    if names[j] == key {
                        v
                    } else {
                        st.values[j]
                    },
            ),
            count: count,
            mask: st.mask | (1u64 << ((names.len() - 1 - idx) as u64)),
            done: count == names.len(),
        }
    }
}

pub open spec fn scan_parts(st: EnvScan, parts: Seq<Seq<u8>>, names: Seq<Seq<char>>) -> EnvScan
    decreases parts.len(),
{
    if parts.len() == 0 {
        st
    } else {
        scan_parts(env_step(st, parts[0], names), parts.drop_first(), names)
    }
}

/// The scan of a whole environment.
pub open spec fn env_scan(environ: Seq<u8>, names: Seq<Seq<char>>) -> EnvScan {
    scan_parts(env_init(names.len()), nul_parts(environ), names)
}

/// `a` found more names than `b`, or as many with earlier names among them.
pub open spec fn beats(a: EnvScan, b: EnvScan) -> bool {
    a.count > b.count || (a.count == b.count && a.mask > b.mask)
}

/// Bit `k` of the mask `m` is set.
pub open spec fn bit_set(m: u64, k: u64) -> bool {
    (m >> k) & 1u64 == 1u64
}

/// Of `n` names, name `j` is marked in the mask `m`.
pub open spec fn marks_name(m: u64, n: nat, j: int) -> bool {
    bit_set(m, (n - 1 - j) as u64)
}

proof fn lemma_bit_or(m: u64, s: u64, t: u64)
    by (bit_vector)
    requires
        s < 64,
        t < 64,
    ensures
        bit_set(m | (1u64 << s), t) == (bit_set(m, t) || t == s),
{
}

proof fn lemma_xor_bit(a: u64, b: u64, k: u64)
    by (bit_vector)
    requires
        k < 64,
    ensures
        bit_set(a ^ b, k) == (bit_set(a, k) != bit_set(b, k)),
{
}

proof fn lemma_top_bit(x: u64)
    by (bit_vector)
    ensures
        (x >> 63u64) == (if bit_set(x, 63) { 1u64 } else { 0u64 }),
{
}

proof fn lemma_shift_step(x: u64, k: u64)
    by (bit_vector)
    requires
        k < 63,
        (x >> ((k + 1) as u64)) == 0,
    ensures
        (x >> k) == (if bit_set(x, k) { 1u64 } else { 0u64 }),
{
}

proof fn lemma_greater_at_top_difference(a: u64, b: u64, t: u64)
    by (bit_vector)
    requires
        t < 64,
        ((a ^ b) >> t) == 1,
        bit_set(a, t),
    ensures
        a > b,
{
}

/// Above bit `k`, `x` has no set bit: `x >> k` is at most its bit `k`.
proof fn lemma_high_bits_clear(x: u64, k: u64)
    requires
        k < 64,
        forall|kk: u64| k < kk < 64 ==> !#[trigger] bit_set(x, kk),
    ensures
        (x >> k) == (if bit_set(x, k) { 1u64 } else { 0u64 }),
    decreases 63 - k,
{
    if k == 63 {
        lemma_top_bit(x);
    } else {
        lemma_high_bits_clear(x, (k + 1) as u64);
        assert(!bit_set(x, (k + 1) as u64));
        lemma_shift_step(x, k);
    }
}

/// A step that takes a value marks exactly that name in the mask, at its place among the
/// names; a step that takes none leaves the mask as it was.
pub proof fn lemma_step_marks_filled_name(st: EnvScan, part: Seq<u8>, names: Seq<Seq<char>>)
    requires
        names.len() <= 64,
    ensures
        ({
            let nx = env_step(st, part, names);
            let key = decode_utf8(part.subrange(0, first_byte_index(part, 0x3d)));
            &&& nx.count == st.count ==> nx.mask == st.mask
            &&& nx.count == st.count + 1 ==> exists|idx: int|
                0 <= idx < names.len() && names[idx] == key && st.values[idx].len() == 0 && forall|j: int|
                    0 <= j < names.len() ==> #[trigger] marks_name(nx.mask, names.len(), j) == (
                    marks_name(st.mask, names.len(), j) || j == idx)
        }),
{
    let nx = env_step(st, part, names);
    let e = first_byte_index(part, 0x3d);
    let key = decode_utf8(part.subrange(0, e));
    let idx = last_index_of(names, key);
    lemma_last_index_of_bounds(names, key);
    if nx.count == st.count + 1 {
        let n = names.len();
        let s = (n - 1 - idx) as u64;
        assert forall|j: int| 0 <= j < n implies #[trigger] marks_name(nx.mask, n, j) == (
        marks_name(st.mask, n, j) || j == idx) by {
            lemma_bit_or(st.mask, s, (n - 1 - j) as u64);
        }
    }
}

/// A mask marks only names: no bit beyond the first `n` is set.
pub open spec fn names_only(m: u64, n: nat) -> bool {
    forall|k: u64| n <= k < 64 ==> !#[trigger] bit_set(m, k)
}

/// Between two processes that provide as many names, the one that provides the earliest name
/// the other lacks (all earlier names being provided by both or by neither) wins, and is not
/// beaten in return: an earlier name outranks all later names together.
pub proof fn lemma_earliest_name_wins(a: EnvScan, b: EnvScan, n: nat, j: int)
    requires
        n <= 64,
        0 <= j < n,
        a.count == b.count,
        names_only(a.mask, n),
        names_only(b.mask, n),
        marks_name(a.mask, n, j),
        !marks_name(b.mask, n, j),
        forall|i: int| 0 <= i < j ==> #[trigger] marks_name(a.mask, n, i) == marks_name(b.mask, n, i),
    ensures
        beats(a, b),
        !beats(b, a),
{
    let t = (n - 1 - j) as u64;
    let x = a.mask ^ b.mask;
    assert forall|kk: u64| t < kk < 64 implies !#[trigger] bit_set(x, kk) by {
        lemma_xor_bit(a.mask, b.mask, kk);
        if kk < n {
            let i = n - 1 - kk;
            assert(marks_name(a.mask, n, i) == marks_name(b.mask, n, i));
            assert((n - 1 - i) as u64 == kk);
        }
    }
    lemma_high_bits_clear(x, t);
    lemma_xor_bit(a.mask, b.mask, t);
    lemma_greater_at_top_difference(a.mask, b.mask, t);
}

proof fn lemma_scan_parts_names_only(st: EnvScan, parts: Seq<Seq<u8>>, names: Seq<Seq<char>>)
    requires
        names.len() <= 64,
        names_only(st.mask, names.len()),
    ensures
        names_only(scan_parts(st, parts, names).mask, names.len()),
    decreases parts.len(),
{
    if parts.len() > 0 {
        let nx = env_step(st, parts[0], names);
        let part = parts[0];
        let key = decode_utf8(part.subrange(0, first_byte_index(part, 0x3d)));
        let idx = last_index_of(names, key);
        lemma_last_index_of_bounds(names, key);
        let n = names.len();
        if nx.mask != st.mask {
            let s = (n - 1 - idx) as u64;
            assert forall|k: u64| n <= k < 64 implies !#[trigger] bit_set(nx.mask, k) by {
                lemma_bit_or(st.mask, s, k);
            }
        }
        lemma_scan_parts_names_only(nx, parts.drop_first(), names);
    }
}

/// The mask of a scanned environment marks names only.
pub proof fn lemma_scan_marks_names_only(environ: Seq<u8>, names: Seq<Seq<char>>)
    requires
        names.len() <= 64,
    ensures
        names_only(env_scan(environ, names).mask, names.len()),
{
    assert forall|k: u64| names.len() <= k < 64 implies !#[trigger] bit_set(0u64, k) by {
        assert(bit_set(0u64, k) == false) by (bit_vector)
            requires
                k < 64,
        ;
    }
    lemma_scan_parts_names_only(env_init(names.len()), nul_parts(environ), names);
}

pub open spec fn first_done(scans: Seq<EnvScan>, i: int) -> bool {
    &&& 0 <= i < scans.len()
    &&& scans[i].done
    &&& forall|j: int| 0 <= j < i ==> !#[trigger] scans[j].done
}

/// `i` is the first scan that found anything and that no other scan beats.
pub open spec fn first_best(scans: Seq<EnvScan>, i: int) -> bool {
    &&& 0 <= i < scans.len()
    &&& scans[i].count > 0 || scans[i].mask > 0
    &&& forall|j: int| 0 <= j < i ==> beats(scans[i], #[trigger] scans[j])
    &&& forall|j: int| i < j < scans.len() ==> !beats(#[trigger] scans[j], scans[i])
}

/// The values taken from a single process: the first one whose scan completed, else the best
/// one, else none.
pub open spec fn env_selection(scans: Seq<EnvScan>, n: nat) -> Seq<Seq<char>> {
    if exists|i: int| first_done(scans, i) {
        scans[choose|i: int| first_done(scans, i)].values
    } else if exists|i: int| first_best(scans, i) {
        scans[choose|i: int| first_best(scans, i)].values
    } else {
        empty_values(n)
    }
}

/// The scans of a sequence of environments.
pub open spec fn scans_of(ms: Seq<Seq<u8>>, names: Seq<Seq<char>>) -> Seq<EnvScan> {
    ms.map_values(|e: Seq<u8>| env_scan(e, names))
}

/// What `get_envs` returns, one value per name.
pub open spec fn get_envs_spec(
    uid: Seq<char>,
    pattern: Seq<char>,
    names: Seq<Seq<char>>,
    entries: Option<Seq<ProcEntry>>,
) -> Seq<Seq<char>> {
    match parse_u32_spec(uid) {
        None => empty_values(names.len()),
        Some(u) => if !regex_compiles(pattern) {
            empty_values(names.len())
        } else {
            match entries {
                None => empty_values(names.len()),
                Some(es) => env_selection(scans_of(matching_environs(es, u, pattern), names), names.len()),
            }
        },
    }
}

/// The listed entries, when the listing succeeded.
pub open spec fn entries_view(p: Option<Vec<ProcEntry>>) -> Option<Seq<ProcEntry>> {
    match p {
        Some(v) => Some(v@),
        None => None,
    }
}

/// The character views of a vector of strings.
pub open spec fn string_views(v: Seq<String>) -> Seq<Seq<char>> {
    v.map_values(|s: String| s@)
}

proof fn lemma_first_byte_index(e: Seq<u8>, b: u8, k: int)
    requires
        0 <= k <= e.len(),
        forall|j: int| 0 <= j < k ==> e[j] != b,
        k < e.len() ==> e[k] == b,
    ensures
        first_byte_index(e, b) == k,
    decreases e.len(),
{
    if e.len() > 0 && k > 0 {
        lemma_first_byte_index(e.drop_first(), b, k - 1);
    }
}

proof fn lemma_last_index_of_bounds(names: Seq<Seq<char>>, key: Seq<char>)
    ensures
        -1 <= last_index_of(names, key) < names.len(),
        last_index_of(names, key) >= 0 ==> names[last_index_of(names, key)] == key,
        last_index_of(names, key) < 0 ==> forall|j: int| 0 <= j < names.len() ==> names[j] != key,
        forall|j: int| last_index_of(names, key) < j < names.len() ==> names[j] != key,
    decreases names.len(),
{
    if names.len() > 0 {
        let d = names.drop_last();
        lemma_last_index_of_bounds(d, key);
        assert forall|j: int| 0 <= j < d.len() implies d[j] == names[j] by {}
    }
}

fn empty_strings(n: usize) -> (v: Vec<String>)
    ensures
        string_views(v@) == empty_values(n as nat),
        v@.len() == n,
{
    let mut v: Vec<String> = Vec::new();
    let mut i: usize = 0;
    while i < n
        invariant
            i <= n,
            v@.len() == i,
            forall|j: int| 0 <= j < i ==> (#[trigger] v@[j])@ == Seq::<char>::empty(),
        decreases n - i,
    {
        v.push(String::new());
        i = i + 1;
    }
    assert(string_views(v@) =~= empty_values(n as nat));
    v
}

/// The two strings are equal.
pub fn str_eq(a: &str, b: &str) -> (r: bool)
    ensures
        r == (a@ == b@),
{
    if a.unicode_len() != b.unicode_len() {
        return false;
    }
    let r = str_starts_with(a, b);
    assert(a@.subrange(0, b@.len() as int) =~= a@);
    r
}

/// First index in `from..to` holding byte `b`, or `to`.
fn find_byte(bytes: &[u8], from: usize, to: usize, b: u8) -> (k: usize)
    requires
        from <= to <= bytes@.len(),
    ensures
        from <= k <= to,
        forall|j: int| from <= j < k ==> bytes@[j] != b,
        k < to ==> bytes@[k as int] == b,
{
    let mut k = from;
    while k < to
        invariant
            from <= k <= to,
            to <= bytes@.len(),
            forall|j: int| from <= j < k ==> bytes@[j] != b,
        decreases to - k,
    {
        if bytes[k] == b {
            return k;
        }
        k = k + 1;
    }
    k
}

fn last_name_index(names: &[&str], key: &str) -> (r: Option<usize>)
    ensures
        match r {
            Some(i) => i == last_index_of(name_seq(names@), key@) && i < names@.len(),
            None => last_index_of(name_seq(names@), key@) < 0,
        },
{
    let ghost ns = name_seq(names@);
    let mut i = names.len();
    assert(ns.subrange(0, i as int) =~= ns);
    while i > 0
        invariant
            i <= names@.len(),
            ns == name_seq(names@),
            last_index_of(ns, key@) == last_index_of(ns.subrange(0, i as int), key@),
        decreases i,
    {
        let ghost pre = ns.subrange(0, i as int);
        assert(pre.drop_last() =~= ns.subrange(0, i - 1));
        if str_eq(names[i - 1], key) {
            return Some(i - 1);
        }
        i = i - 1;
    }
    None
}

/// Applies one `KEY=VALUE` part to the scan state.
fn env_step_exec(
    part: &[u8],
    names: &[&str],
    values: &mut Vec<String>,
    count: &mut usize,
    mask: &mut u64,
    done: &mut bool,
)
    requires
        names@.len() <= 64,
        old(values)@.len() == names@.len(),
        *old(count) <= names@.len(),
        !*old(done) ==> (*old(count) < names@.len() || *old(count) == 0),
    ensures
        ({
            let st = EnvScan {
                values: string_views(old(values)@),
                count: *old(count) as nat,
                mask: *old(mask),
                done: *old(done),
            };
            let nx = env_step(st, part@, name_seq(names@));
            &&& string_views(final(values)@) == nx.values
            &&& *final(count) as nat == nx.count
            &&& *final(mask) == nx.mask
            &&& *final(done) == nx.done
        }),
        final(values)@.len() == names@.len(),
        *final(count) <= names@.len(),
        !*final(done) ==> (*final(count) < names@.len() || *final(count) == 0),
{
    let ghost ns = name_seq(names@);
    if *done || part.len() == 0 {
        return;
    }
    let e = find_byte(part, 0, part.len(), 0x3d);
    proof {
        lemma_first_byte_index(part@, 0x3d, e as int);
    }
    if e == part.len() {
        return;
    }
    let kb = &part[0..e];
    assert(kb@ =~= part@.subrange(0, e as int));
    let key = match utf8_to_string(kb) {
        None => {
            return;
        },
        Some(k) => k,
    };
    proof {
        lemma_last_index_of_bounds(ns, key@);
    }
    let idx = match last_name_index(names, key.as_str()) {
        None => {
            return;
        },
        Some(i) => i,
    };
    if values[idx].as_str().unicode_len() != 0 {
        return;
    }
    let rest = &part[e + 1..part.len()];
    assert(rest@ =~= part@.subrange(e + 1, part@.len() as int));
    let v = utf8_lossy_string(rest);
    let ghost old_values = values@;
    let mut j: usize = 0;
    while j < names.len()
        invariant
            names@.len() <= 64,
            ns == name_seq(names@),
            j <= names@.len(),
            values@.len() == names@.len(),
            old_values.len() == names@.len(),
            forall|k: int|
                0 <= k < j ==> (#[trigger] values@[k])@ == (if ns[k] == key@ {
                    v@
                } else {
                    old_values[k]@
                }),
            forall|k: int| j <= k < names@.len() ==> #[trigger] values@[k] == old_values[k],
        decreases names@.len() - j,
    {
        if str_eq(names[j], key.as_str()) {
            values.set(j, v.clone());
        }
        j = j + 1;
    }
    *count = *count + 1;
    let shift: u64 = (names.len() - 1 - idx) as u64;
    *mask = *mask | (1u64 << shift);
    *done = *count == names.len();
    proof {
        let st = EnvScan {
            values: string_views(old_values),
            count: (*count - 1) as nat,
            mask: *old(mask),
            done: false,
        };
        let nx = env_step(st, part@, ns);
        assert(string_views(values@) =~= nx.values);
    }
}

/// Scans one environment block for the named variables.
fn scan_environ(environ: &[u8], names: &[&str]) -> (r: (Vec<String>, usize, u64, bool))
    requires
        names@.len() <= 64,
    ensures
        ({
            let sc = env_scan(environ@, name_seq(names@));
            &&& string_views(r.0@) == sc.values
            &&& r.1 as nat == sc.count
            &&& r.2 == sc.mask
            &&& r.3 == sc.done
        }),
        r.0@.len() == names@.len(),
{
    let ghost ns = name_seq(names@);
    let n = environ.len();
    let mut values = empty_strings(names.len());
    let mut count: usize = 0;
    let mut mask: u64 = 0;
    let mut done = false;
    let mut start: usize = 0;
    assert(environ@.subrange(0, n as int) =~= environ@);
    loop
        invariant
            names@.len() <= 64,
            ns == name_seq(names@),
            n == environ@.len(),
            start <= n,
            values@.len() == names@.len(),
            count <= names@.len(),
            !done ==> (count < names@.len() || count == 0),
            env_scan(environ@, ns) == scan_parts(
                EnvScan { values: string_views(values@), count: count as nat, mask, done },
                nul_parts(environ@.subrange(start as int, n as int)),
                ns,
            ),
        decreases n - start,
    {
        let j = find_byte(environ, start, n, 0);
        let ghost t = environ@.subrange(start as int, n as int);
        proof {
            lemma_first_byte_index(t, 0, j - start);
        }
        let part = &environ[start..j];
        assert(part@ =~= t.subrange(0, j - start));
        let ghost st = EnvScan { values: string_views(values@), count: count as nat, mask, done };
        env_step_exec(part, names, &mut values, &mut count, &mut mask, &mut done);
        if j == n {
            assert(part@ =~= t);
            assert(nul_parts(t) == seq![t]);
            assert(scan_parts(env_step(st, t, ns), seq![t].drop_first(), ns) == env_step(
                st,
                t,
                ns,
            ));
            return (values, count, mask, done);
        }
        assert(t.subrange(j - start + 1, t.len() as int) =~= environ@.subrange(j + 1, n as int));
        let ghost tail = environ@.subrange(j + 1, n as int);
        assert(nul_parts(t) == seq![t.subrange(0, j - start)] + nul_parts(tail));
        assert((seq![t.subrange(0, j - start)] + nul_parts(tail)).drop_first() =~= nul_parts(tail));
        start = j + 1;
    }
}

fn all_ascii_digits(s: &str) -> (r: bool)
    ensures
        r == all_digits(s@),
{
    let n = s.unicode_len();
    let mut i: usize = 0;
    while i < n
        invariant
            n == s@.len(),
            i <= n,
            forall|j: int| 0 <= j < i ==> is_digit(#[trigger] s@[j]),
        decreases n - i,
    {
        let c = s.get_char(i);
        if !('0' <= c && c <= '9') {
            return false;
        }
        i = i + 1;
    }
    true
}

/// `s` with every NUL character replaced by a space.
fn replace_nul_with_space(s: &str) -> (r: String)
    ensures
        r@ == nul_as_space(s@),
{
    let n = s.unicode_len();
    let mut r = String::new();
    let mut start: usize = 0;
    let mut i: usize = 0;
    proof {
        reveal_strlit(" ");
    }
    while i < n
        invariant
            n == s@.len(),
            start <= i <= n,
            r@ == nul_as_space(s@.subrange(0, start as int)),
            forall|k: int| start <= k < i ==> s@[k] != '\0',
            " "@ == seq![' '],
        decreases n - i,
    {
        if s.get_char(i) == '\0' {
            let seg = s.substring_char(start, i);
            r.append(seg);
            r.append(" ");
            assert(nul_as_space(s@.subrange(0, i + 1)) =~= nul_as_space(
                s@.subrange(0, start as int),
            ) + s@.subrange(start as int, i as int) + seq![' ']);
            start = i + 1;
        }
        i = i + 1;
    }
    let seg = s.substring_char(start, n);
    r.append(seg);
    assert(nul_as_space(s@) =~= nul_as_space(s@.subrange(0, start as int)) + s@.subrange(
        start as int,
        n as int,
    ));
    r
}

proof fn lemma_matching_prefix(es: Seq<ProcEntry>, k: int, uid: u32, pattern: Seq<char>)
    requires
        0 <= k <= es.len(),
    ensures
        ({
            let pre = matching_environs(es.subrange(0, k), uid, pattern);
            let all = matching_environs(es, uid, pattern);
            pre.len() <= all.len() && all.subrange(0, pre.len() as int) == pre
        }),
    decreases es.len(),
{
    if k < es.len() {
        lemma_matching_prefix(es.drop_last(), k, uid, pattern);
        assert(es.drop_last().subrange(0, k) =~= es.subrange(0, k));
        let pre = matching_environs(es.subrange(0, k), uid, pattern);
        let mid = matching_environs(es.drop_last(), uid, pattern);
        let all = matching_environs(es, uid, pattern);
        assert(all.subrange(0, pre.len() as int) =~= mid.subrange(0, pre.len() as int));
    } else {
        assert(es.subrange(0, k) =~= es);
        let all = matching_environs(es, uid, pattern);
        assert(all.subrange(0, all.len() as int) =~= all);
    }
}

/// The environment of the entry, when the entry is a matching process.
fn matching_environ<'a>(entry: &'a ProcEntry, uid_num: u32, re: &Pattern) -> (r: Option<&'a [u8]>)
    ensures
        r is Some <==> entry_matches(*entry, uid_num, re.source()),
        r matches Some(b) ==> b@ == entry.environ.unwrap()@,
{
    match &entry.file_name {
        Some(name) => {
            if !all_ascii_digits(name.as_str()) {
                return None;
            }
        },
        None => {
            return None;
        },
    }
    match entry.uid {
        Some(u) => {
            if u != uid_num {
                return None;
            }
        },
        None => {
            return None;
        },
    }
    match &entry.cmdline {
        Some(c) => {
            let lossy = utf8_lossy_string(c.as_slice());
            let text = replace_nul_with_space(lossy.as_str());
            if !re.is_match(text.as_str()) {
                return None;
            }
        },
        None => {
            return None;
        },
    }
    match &entry.environ {
        Some(env) => Some(env.as_slice()),
        None => None,
    }
}

/// Reads the named environment variables of one process of user `uid` whose command line
/// matches `process_pat`, out of the process directory listing `proc_entries` (`None` when
/// it could not be listed). Values come from a single process: the first one that provides
/// every name, else the one providing the most names (ties favour earlier names, then earlier
/// processes). A name without a value maps to the empty string; the result holds one value
/// per name.
pub fn get_envs(
    uid: &str,
    process_pat: &str,
    names: &[&str],
    proc_entries: Option<Vec<ProcEntry>>,
) -> (r: Vec<String>)
    requires
        names@.len() <= 64,
    ensures
        string_views(r@) == get_envs_spec(
            uid@,
            process_pat@,
            name_seq(names@),
            entries_view(proc_entries),
        ),
{
    let ghost ns = name_seq(names@);
    let ghost pe = entries_view(proc_entries);
    let uid_num = match parse_u32(uid) {
        None => {
            return empty_strings(names.len());
        },
        Some(u) => u,
    };
    let re = match Pattern::new(process_pat) {
        None => {
            return empty_strings(names.len());
        },
        Some(p) => p,
    };
    let entries = match proc_entries {
        None => {
            return empty_strings(names.len());
        },
        Some(es) => es,
    };
    let ghost es = entries@;
    let mut best = empty_strings(names.len());
    let mut best_count: usize = 0;
    let mut best_mask: u64 = 0;
    let ghost mut best_i: int = -1;
    let mut k: usize = 0;
    assert(es.subrange(0, 0) =~= Seq::<ProcEntry>::empty());
    while k < entries.len()
        invariant
            names@.len() <= 64,
            ns == name_seq(names@),
            es == entries@,
            pe == Some(es),
            pe == entries_view(proc_entries),
            parse_u32_spec(uid@) == Some(uid_num),
            regex_compiles(process_pat@),
            k <= es.len(),
            re.source() == process_pat@,
            ({
                let scans = scans_of(
                    matching_environs(es.subrange(0, k as int), uid_num, process_pat@),
                    ns,
                );
                &&& forall|i: int| 0 <= i < scans.len() ==> !#[trigger] scans[i].done
                &&& best_i == -1 ==> {
                    &&& forall|i: int|
                        0 <= i < scans.len() ==> (#[trigger] scans[i]).count == 0
                            && scans[i].mask == 0
                    &&& string_views(best@) == empty_values(names@.len() as nat)
                    &&& best_count == 0
                    &&& best_mask == 0
                }
                &&& best_i != -1 ==> {
                    &&& first_best(scans, best_i)
                    &&& string_views(best@) == scans[best_i].values
                    &&& best_count as nat == scans[best_i].count
                    &&& best_mask == scans[best_i].mask
                }
            }),
        decreases es.len() - k,
    {
        let ghost pre = es.subrange(0, k as int);
        let ghost next = es.subrange(0, k + 1);
        assert(next.drop_last() =~= pre);
        assert(next.last() == es[k as int]);
        let ghost ms0 = matching_environs(pre, uid_num, process_pat@);
        let ghost scans0 = scans_of(ms0, ns);
        match matching_environ(&entries[k], uid_num, &re) {
            None => {},
            Some(env_bytes) => {
                let (values, count, mask, done) = scan_environ(env_bytes, names);
                let ghost sc = env_scan(env_bytes@, ns);
                let ghost scans1 = scans_of(ms0.push(env_bytes@), ns);
                assert(scans1 =~= scans0.push(sc));
                assert(matching_environs(next, uid_num, process_pat@) =~= ms0.push(env_bytes@));
                if done {
                    proof {
                        lemma_matching_prefix(es, k + 1, uid_num, process_pat@);
                        let all = matching_environs(es, uid_num, process_pat@);
                        let full = scans_of(all, ns);
                        let i0 = scans0.len() as int;
                        assert forall|j: int| 0 <= j <= i0 implies #[trigger] full[j] == scans1[j] by {
                            assert(all[j] == all.subrange(0, i0 + 1)[j]);
                            assert(all.subrange(0, i0 + 1)[j] == ms0.push(env_bytes@)[j]);
                        }
                        assert(first_done(full, i0));
                        let c = choose|i: int| first_done(full, i);
                        if c < i0 {
                            assert(full[c].done);
                        } else if c > i0 {
                            assert(!full[i0].done);
                        }
                        assert(string_views(values@) == full[i0].values);
                        assert(env_selection(full, ns.len()) == full[i0].values);
                        assert(get_envs_spec(uid@, process_pat@, ns, Some(es)) == env_selection(
                            full,
                            ns.len(),
                        ));
                    }
                    return values;
                }
                if count > best_count || (count == best_count && mask > best_mask) {
                    best = values;
                    best_count = count;
                    best_mask = mask;
                    proof {
                        best_i = scans0.len() as int;
                    }
                }
            },
        }
        k = k + 1;
    }
    proof {
        assert(es.subrange(0, es.len() as int) =~= es);
        let full = scans_of(matching_environs(es, uid_num, process_pat@), ns);
        assert(!exists|i: int| first_done(full, i));
        if best_i == -1 {
            assert(!exists|i: int| first_best(full, i));
        } else {
            let c = choose|i: int| first_best(full, i);
            if c < best_i {
                assert(beats(full[best_i], full[c]));
            } else if c > best_i {
                assert(beats(full[c], full[best_i]));
            }
        }
    }
    best
}


/// Position and size of a display.
#[derive(Clone, Copy, Debug)]
pub struct DisplayInfo {
    pub x: i32,
    pub y: i32,
    pub width: i32,
    pub height: i32,
}

/// Position and size of a window.
#[derive(Clone, Copy, Debug)]
pub struct WindowGeometry {
    pub x: i32,
    pub y: i32,
    pub width: u32,
    pub height: u32,
}

/// The point lies on the display.
pub open spec fn display_contains(d: DisplayInfo, cx: int, cy: int) -> bool {
    cx >= d.x && cx < d.x + d.width && cy >= d.y && cy < d.y + d.height
}

pub open spec fn fits_i32(v: int) -> bool {
    i32::MIN <= v <= i32::MAX
}

/// Testing whether the point lies on the display computes no out-of-range sum (the right and
/// bottom edges are computed only when the tests before them passed).
pub open spec fn display_test_in_range(d: DisplayInfo, cx: int, cy: int) -> bool {
    &&& cx >= d.x ==> fits_i32(d.x + d.width)
    &&& (cx >= d.x && cx < d.x + d.width && cy >= d.y) ==> fits_i32(d.y + d.height)
}

pub open spec fn window_center_x(w: WindowGeometry) -> int {
    w.x + w.width / 2
}

pub open spec fn window_center_y(w: WindowGeometry) -> int {
    w.y + w.height / 2
}

/// The display that holds the center of the active window: the first one containing it.
pub fn get_focused_display(window: Option<WindowGeometry>, displays: &[DisplayInfo]) -> (r: Option<
    usize,
>)
    requires
        window matches Some(w) ==> {
            &&& fits_i32(window_center_x(w))
            &&& fits_i32(window_center_y(w))
            &&& forall|i: int|
                0 <= i < displays@.len() && (forall|j: int|
                    0 <= j < i ==> !display_contains(
                        #[trigger] displays@[j],
                        window_center_x(w),
                        window_center_y(w),
                    )) ==> display_test_in_range(
                    #[trigger] displays@[i],
                    window_center_x(w),
                    window_center_y(w),
                )
        },
    ensures
        window is None ==> r is None,
        window matches Some(w) ==> match r {
            Some(i) => {
                &&& i < displays@.len()
                &&& display_contains(displays@[i as int], window_center_x(w), window_center_y(w))
                &&& forall|j: int|
                    0 <= j < i ==> !display_contains(
                        #[trigger] displays@[j],
                        window_center_x(w),
                        window_center_y(w),
                    )
            },
            None => forall|j: int|
                0 <= j < displays@.len() ==> !display_contains(
                    #[trigger] displays@[j],
                    window_center_x(w),
                    window_center_y(w),
                ),
        },
{
    let w = match window {
        None => {
            return None;
        },
        Some(w) => w,
    };
    let half_w: i32 = (w.width / 2) as i32;
    let half_h: i32 = (w.height / 2) as i32;
    let center_x = w.x + half_w;
    let center_y = w.y + half_h;
    let mut i: usize = 0;
    while i < displays.len()
        invariant
            window == Some(w),
            i <= displays@.len(),
            center_x == window_center_x(w),
            center_y == window_center_y(w),
            forall|k: int|
                0 <= k < displays@.len() && (forall|j: int|
                    0 <= j < k ==> !display_contains(
                        #[trigger] displays@[j],
                        window_center_x(w),
                        window_center_y(w),
                    )) ==> display_test_in_range(
                    #[trigger] displays@[k],
                    window_center_x(w),
                    window_center_y(w),
                ),
            forall|j: int|
                0 <= j < i ==> !display_contains(#[trigger] displays@[j], center_x as int, center_y as int),
        decreases displays@.len() - i,
    {
        let d = displays[i];
        assert(display_test_in_range(displays@[i as int], center_x as int, center_y as int));
        if center_x >= d.x && center_x < d.x + d.width && center_y >= d.y && center_y < d.y
            + d.height {
            return Some(i);
        }
        i = i + 1;
    }
    None
}

/// A cursor image as the X server reports it; `pixels` holds `width * height` ARGB values.
pub struct CursorImage {
    pub x: i16,
    pub y: i16,
    pub width: u16,
    pub height: u16,
    pub xhot: u16,
    pub yhot: u16,
    pub cursor_serial: i64,
    pub pixels: Vec<i64>,
}

/// A cursor as sent to peers: hot spot, size and RGBA pixels.
pub struct CursorData {
    pub id: u64,
    pub hotx: i32,
    pub hoty: i32,
    pub width: i32,
    pub height: i32,
    pub colors: Vec<u8>,
}

/// Why no cursor data could be produced.
#[derive(Debug)]
pub enum CursorError {
    /// No cursor image with this serial is available.
    NoImage(u64),
}

/// Channel of an ARGB pixel starting at bit `shift`.
pub open spec fn pixel_channel(p: i64, shift: i64) -> u8 {
    ((p >> shift) & 0xff) as u8
}

/// Byte `k` of the RGBA rendering of ARGB `pixels`: fully transparent pixels become all zero,
/// the others become red, green, blue, alpha.
pub open spec fn rgba_byte(pixels: Seq<i64>, k: int) -> u8 {
    let p = pixels[k / 4];
    if pixel_channel(p, 24) == 0 {
        0
    } else if k % 4 == 0 {
        pixel_channel(p, 16)
    } else if k % 4 == 1 {
        pixel_channel(p, 8)
    } else if k % 4 == 2 {
        pixel_channel(p, 0)
    } else {
        pixel_channel(p, 24)
    }
}

/// The RGBA bytes of pixel `i` of an ARGB cursor image: the alpha byte is always the pixel's
/// alpha, so partly transparent pixels keep their transparency; red, green and blue are the
/// pixel's own whenever it is not fully transparent, and all four bytes are zero when it is.
pub proof fn lemma_cursor_pixel_bytes(pixels: Seq<i64>, i: int)
    requires
        0 <= i < pixels.len(),
    ensures
        rgba_byte(pixels, 4 * i + 3) == ((pixels[i] >> 24) & 0xff) as u8,
        ((pixels[i] >> 24) & 0xff) != 0 ==> {
            &&& rgba_byte(pixels, 4 * i) == ((pixels[i] >> 16) & 0xff) as u8
            &&& rgba_byte(pixels, 4 * i + 1) == ((pixels[i] >> 8) & 0xff) as u8
            &&& rgba_byte(pixels, 4 * i + 2) == (pixels[i] & 0xff) as u8
        },
        ((pixels[i] >> 24) & 0xff) == 0 ==> {
            &&& rgba_byte(pixels, 4 * i) == 0
            &&& rgba_byte(pixels, 4 * i + 1) == 0
            &&& rgba_byte(pixels, 4 * i + 2) == 0
        },
{
    let p = pixels[i];
    assert((4 * i) / 4 == i && (4 * i) % 4 == 0) by (nonlinear_arith)
        requires
            i >= 0,
    ;
    assert((4 * i + 1) / 4 == i && (4 * i + 1) % 4 == 1) by (nonlinear_arith)
        requires
            i >= 0,
    ;
    assert((4 * i + 2) / 4 == i && (4 * i + 2) % 4 == 2) by (nonlinear_arith)
        requires
            i >= 0,
    ;
    assert((4 * i + 3) / 4 == i && (4 * i + 3) % 4 == 3) by (nonlinear_arith)
        requires
            i >= 0,
    ;
    assert((p >> 0i64) == p) by (bit_vector);
    assert(((p >> 24i64) & 0xff) == 0 <==> (((p >> 24i64) & 0xff) as u8) == 0) by (bit_vector);
}

/// Converts the current cursor image `image` (if any) into cursor data, provided it is the
/// cursor with serial `hcursor`.
pub fn get_cursor_data(hcursor: u64, image: Option<CursorImage>) -> (r: Result<CursorData, CursorError>)
    requires
        image matches Some(img) ==> {
            &&& img.pixels@.len() == img.width * img.height
            &&& img.width * img.height <= i32::MAX
            &&& 4 * img.pixels@.len() <= usize::MAX
        },
    ensures
        match image {
            Some(img) if hcursor == img.cursor_serial as u64 => r matches Ok(cd) && {
                &&& cd.id == img.cursor_serial as u64
                &&& cd.hotx == img.xhot as i32
                &&& cd.hoty == img.yhot as i32
                &&& cd.width == img.width as i32
                &&& cd.height == img.height as i32
                &&& cd.colors@.len() == 4 * img.pixels@.len()
                &&& forall|k: int|
                    0 <= k < cd.colors@.len() ==> #[trigger] cd.colors@[k] == rgba_byte(
                        img.pixels@,
                        k,
                    )
            },
            _ => r matches Err(CursorError::NoImage(h)) && h == hcursor,
        },
{
    let img = match image {
        Some(img) => img,
        None => {
            return Err(CursorError::NoImage(hcursor));
        },
    };
    if hcursor != #[verifier::truncate] (img.cursor_serial as u64) {
        return Err(CursorError::NoImage(hcursor));
    }
    let n = img.pixels.len();
    let mut colors: Vec<u8> = vec![0u8; n * 4];
    let mut pos: usize = 0;
    while pos < n
        invariant
            n == img.pixels@.len(),
            n <= i32::MAX,
            4 * n <= usize::MAX,
            pos <= n,
            colors@.len() == 4 * n,
            forall|k: int| 0 <= k < 4 * pos ==> #[trigger] colors@[k] == rgba_byte(img.pixels@, k),
            forall|k: int| 4 * pos <= k < 4 * n ==> #[trigger] colors@[k] == 0,
        decreases n - pos,
    {
        let p = img.pixels[pos];
        let a: u8 = #[verifier::truncate] (((p >> 24i64) & 0xff) as u8);
        let r: u8 = #[verifier::truncate] (((p >> 16i64) & 0xff) as u8);
        let g: u8 = #[verifier::truncate] (((p >> 8i64) & 0xff) as u8);
        let b: u8 = #[verifier::truncate] (((p >> 0i64) & 0xff) as u8);
        let base = pos * 4;
        if a != 0 {
            colors.set(base, r);
            colors.set(base + 1, g);
            colors.set(base + 2, b);
            colors.set(base + 3, a);
        }
        assert forall|k: int| 4 * pos <= k < 4 * pos + 4 implies #[trigger] colors@[k]
            == rgba_byte(img.pixels@, k) by {
            assert(k / 4 == pos as int);
            assert(k % 4 == k - 4 * pos);
        }
        pos = pos + 1;
    }
    Ok(CursorData {
        id: #[verifier::truncate] (img.cursor_serial as u64),
        hotx: img.xhot as i32,
        hoty: img.yhot as i32,
        width: img.width as i32,
        height: img.height as i32,
        colors,
    })
}


proof fn lemma_scan_parts_len(st: EnvScan, parts: Seq<Seq<u8>>, names: Seq<Seq<char>>)
    ensures
        scan_parts(st, parts, names).values.len() == st.values.len(),
    decreases parts.len(),
{
    if parts.len() > 0 {
        lemma_scan_parts_len(env_step(st, parts[0], names), parts.drop_first(), names);
    }
}

/// `get_envs` gives one value per name.
pub proof fn lemma_get_envs_len(
    uid: Seq<char>,
    pattern: Seq<char>,
    names: Seq<Seq<char>>,
    entries: Option<Seq<ProcEntry>>,
)
    ensures
        get_envs_spec(uid, pattern, names, entries).len() == names.len(),
{
    assert forall|e: Seq<u8>| #[trigger] env_scan(e, names).values.len() == names.len() by {
        lemma_scan_parts_len(env_init(names.len()), nul_parts(e), names);
    }
}

/// An environment variable name that may be passed through `env`: a letter or `_`, then
/// letters, digits or `_`.
pub open spec fn valid_env_key(k: Seq<char>) -> bool {
    &&& k.len() > 0
    &&& (('a' <= k[0] <= 'z') || ('A' <= k[0] <= 'Z') || k[0] == '_')
    &&& forall|i: int|
        0 <= i < k.len() ==> (('a' <= #[trigger] k[i] <= 'z') || ('A' <= k[i] <= 'Z') || ('0'
            <= k[i] <= '9') || k[i] == '_')
}

/// Whether `key` is a portable environment variable name.
pub fn is_valid_env_key(key: &str) -> (r: bool)
    ensures
        r == valid_env_key(key@),
{
    let n = key.unicode_len();
    if n == 0 {
        return false;
    }
    let c0 = key.get_char(0);
    if !(('a' <= c0 && c0 <= 'z') || ('A' <= c0 && c0 <= 'Z') || c0 == '_') {
        return false;
    }
    let mut i: usize = 0;
    while i < n
        invariant
            n == key@.len(),
            i <= n,
            forall|j: int|
                0 <= j < i ==> (('a' <= #[trigger] key@[j] <= 'z') || ('A' <= key@[j] <= 'Z')
                    || ('0' <= key@[j] <= '9') || key@[j] == '_'),
        decreases n - i,
    {
        let c = key.get_char(i);
        if !(('a' <= c && c <= 'z') || ('A' <= c && c <= 'Z') || ('0' <= c && c <= '9') || c
            == '_') {
            return false;
        }
        i = i + 1;
    }
    true
}

/// Why a program could not be run as another user.
pub enum RunAsUserError {
    NoValidUid,
}

/// The `sudo` invocation that runs this program as another user.
pub struct SudoCommand {
    /// Arguments to `sudo`.
    pub args: Vec<String>,
    /// Variables set in the environment of `sudo` itself.
    pub envs: Vec<(String, String)>,
}

/// The runtime directory setting of user `uid`.
pub open spec fn xdg_setting(uid: Seq<char>) -> Seq<char> {
    "XDG_RUNTIME_DIR=/run/user/"@ + uid
}

/// The `KEY=VALUE` arguments for the pairs with a valid key, in order.
pub open spec fn env_args(envs: Seq<(Seq<char>, Seq<char>)>) -> Seq<Seq<char>>
    decreases envs.len(),
{
    if envs.len() == 0 {
        Seq::empty()
    } else {
        let rest = env_args(envs.drop_last());
        let (k, v) = envs.last();
        if valid_env_key(k) {
            rest.push(k + "="@ + v)
        } else {
            rest
        }
    }
}

pub open spec fn pair_views(v: Seq<(String, String)>) -> Seq<(Seq<char>, Seq<char>)> {
    v.map_values(|p: (String, String)| (p.0@, p.1@))
}

/// The arguments of `sudo` that run `exe` with `args` as user `username` (uid `uid`): where
/// `sudo -E` keeps the environment, `-E`, the runtime directory, `-u` and the user, and the
/// program, with the variables set around `sudo`; otherwise `-u`, the user, `--`, `env`, the
/// runtime directory and each variable with a valid name, then the program.
pub open spec fn sudo_args(
    args: Seq<Seq<char>>,
    uid: Seq<char>,
    username: Seq<char>,
    exe: Seq<char>,
    keeps_env: bool,
    envs: Seq<(Seq<char>, Seq<char>)>,
) -> Seq<Seq<char>> {
    if keeps_env {
        seq!["-E"@, xdg_setting(uid), "-u"@, username, exe] + args
    } else {
        seq!["-u"@, username, "--"@, "env"@, xdg_setting(uid)] + env_args(envs) + seq![exe] + args
    }
}

fn push_all(v: &mut Vec<String>, items: &[&str])
    ensures
        str_views(final(v)@) == str_views(old(v)@) + name_seq(items@),
{
    let mut i: usize = 0;
    while i < items.len()
        invariant
            i <= items@.len(),
            str_views(v@) == str_views(old(v)@) + name_seq(items@).subrange(0, i as int),
        decreases items@.len() - i,
    {
        let ghost pre = str_views(v@);
        v.push(String::from_str(items[i]));
        assert(str_views(v@) =~= pre.push(items@[i as int]@));
        assert(name_seq(items@).subrange(0, i + 1) =~= name_seq(items@).subrange(0, i as int).push(
            items@[i as int]@,
        ));
        i = i + 1;
    }
    assert(name_seq(items@).subrange(0, items@.len() as int) =~= name_seq(items@));
}

/// Plans running this program (`exe`) with `arg` as the user (`uid`, `username`), passing the
/// environment `envs`; `sudo_keeps_env` tells whether `sudo -E` keeps the environment here.
pub fn run_as_user(
    arg: &[&str],
    uid: &str,
    username: &str,
    exe: &str,
    sudo_keeps_env: bool,
    envs: Vec<(String, String)>,
) -> (r: Result<SudoCommand, RunAsUserError>)
    ensures
        uid@.len() == 0 <==> r is Err,
        r matches Ok(c) ==> str_views(c.args@) == sudo_args(
            name_seq(arg@),
            uid@,
            username@,
            exe@,
            sudo_keeps_env,
            pair_views(envs@),
        ),
        r matches Ok(c) ==> pair_views(c.envs@) == (if sudo_keeps_env {
            pair_views(envs@)
        } else {
            Seq::empty()
        }),
{
    if uid.unicode_len() == 0 {
        return Err(RunAsUserError::NoValidUid);
    }
    let mut xdg = String::from_str("XDG_RUNTIME_DIR=/run/user/");
    xdg.append(uid);
    let mut out: Vec<String> = Vec::new();
    if sudo_keeps_env {
        out.push(String::from_str("-E"));
        out.push(xdg);
        out.push(String::from_str("-u"));
        out.push(String::from_str(username));
        out.push(String::from_str(exe));
        let ghost pre = str_views(out@);
        push_all(&mut out, arg);
        assert(pre =~= seq!["-E"@, xdg_setting(uid@), "-u"@, username@, exe@]);
        return Ok(SudoCommand { args: out, envs });
    }
    out.push(String::from_str("-u"));
    out.push(String::from_str(username));
    out.push(String::from_str("--"));
    out.push(String::from_str("env"));
    out.push(xdg);
    let ghost head = str_views(out@);
    assert(head =~= seq!["-u"@, username@, "--"@, "env"@, xdg_setting(uid@)]);
    let mut i: usize = 0;
    while i < envs.len()
        invariant
            i <= envs@.len(),
            str_views(out@) == head + env_args(pair_views(envs@).subrange(0, i as int)),
        decreases envs@.len() - i,
    {
        let ghost pv = pair_views(envs@).subrange(0, i + 1);
        assert(pv.drop_last() =~= pair_views(envs@).subrange(0, i as int));
        let (k, v) = (&envs[i].0, &envs[i].1);
        if is_valid_env_key(k.as_str()) {
            let mut kv = String::from_str(k.as_str());
            kv.append("=");
            kv.append(v.as_str());
            let ghost pre = str_views(out@);
            out.push(kv);
            assert(str_views(out@) =~= pre.push(kv@));
        }
        i = i + 1;
    }
    assert(pair_views(envs@).subrange(0, envs@.len() as int) =~= pair_views(envs@));
    let ghost mid = str_views(out@);
    out.push(String::from_str(exe));
    assert(str_views(out@) =~= mid + seq![exe@]);
    push_all(&mut out, arg);
    let none: Vec<(String, String)> = Vec::new();
    assert(pair_views(none@) =~= Seq::<(Seq<char>, Seq<char>)>::empty());
    Ok(SudoCommand { args: out, envs: none })
}

/// The program counts as installed when it runs from under `/usr` or from the Nix store.
pub open spec fn installed_path(p: Seq<char>) -> bool {
    has_prefix(p, "/usr"@) || has_prefix(p, "/nix/store"@)
}

/// Whether the program at `exe` (`None` when its path is unknown) is installed.
pub fn is_installed(exe: Option<&str>) -> (r: bool)
    ensures
        r == (match exe {
            Some(p) => installed_path(p@),
            None => false,
        }),
{
    match exe {
        Some(p) => str_starts_with(p, "/usr") || str_starts_with(p, "/nix/store"),
        None => false,
    }
}

/// Whether the user running the program is `root`.
pub fn is_root(username: &str) -> (r: bool)
    ensures
        r == (username@ == "root"@),
{
    str_eq(username, "root")
}

/// The usual home directory of `username`.
pub fn default_home(username: &str) -> (r: String)
    ensures
        r@ == "/home/"@ + username@,
{
    let mut p = String::from_str("/home/");
    p.append(username);
    p
}

/// The home directory of the active user: none without an active user; the one the user
/// database gives (`user_home`); else `default_home(username)` when it exists.
pub fn get_active_user_home(username: &str, user_home: Option<String>, default_exists: bool) -> (r:
    Option<String>)
    ensures
        username@.len() == 0 ==> r is None,
        username@.len() > 0 ==> match user_home {
            Some(h) => r == Some(h),
            None => if default_exists {
                r matches Some(d) && d@ == "/home/"@ + username@
            } else {
                r is None
            },
        },
{
    if username.unicode_len() == 0 {
        return None;
    }
    match user_home {
        Some(h) => Some(h),
        None => {
            if default_exists {
                Some(default_home(username))
            } else {
                None
            }
        },
    }
}

/// The active user's account allows no login (its shell is `/bin/false` or
/// `/usr/sbin/nologin`): the session is a login screen. Never so inside Flatpak.
pub open spec fn prelogin(in_flatpak: bool, passwd_entry: Option<Seq<char>>) -> bool {
    !in_flatpak && match passwd_entry {
        Some(e) => has_infix(e, "/bin/false"@) || has_infix(e, "/usr/sbin/nologin"@),
        None => false,
    }
}

/// Whether the session is a login screen, from the account entry of the active user (`None`
/// when it could not be read).
pub fn is_prelogin(in_flatpak: bool, passwd_entry: Option<&str>) -> (r: bool)
    ensures
        r == prelogin(
            in_flatpak,
            match passwd_entry {
                Some(e) => Some(e@),
                None => None,
            },
        ),
{
    if in_flatpak {
        return false;
    }
    match passwd_entry {
        Some(e) => str_contains(e, "/bin/false") || str_contains(e, "/usr/sbin/nologin"),
        None => false,
    }
}

/// Whether the screen is locked: never on a login screen or without a session on seat 0;
/// otherwise what the session manager says of the session `seat0[0]` (`session_locked`).
pub fn is_locked(prelogin: bool, seat0: &Vec<String>, session_locked: bool) -> (r: bool)
    ensures
        r == (!prelogin && seat0@.len() > 0 && seat0@[0]@.len() > 0 && session_locked),
{
    if prelogin {
        return false;
    }
    if seat0.len() == 0 {
        return false;
    }
    if seat0[0].as_str().unicode_len() == 0 {
        return false;
    }
    session_locked
}

/// The name of the first source whose name contains `needle` (`by_name`) or whose description
/// is `needle` (otherwise), or empty.
pub open spec fn first_source(sources: Seq<(Seq<char>, Seq<char>)>, needle: Seq<char>, by_name: bool) -> Seq<
    char,
>
    decreases sources.len(),
{
    if sources.len() == 0 {
        Seq::empty()
    } else if (by_name && has_infix(sources[0].0, needle)) || (!by_name && sources[0].1 == needle) {
        sources[0].0
    } else {
        first_source(sources.drop_first(), needle, by_name)
    }
}

fn find_source(sources: &Vec<(String, String)>, needle: &str, by_name: bool) -> (r: String)
    ensures
        r@ == first_source(pair_views(sources@), needle@, by_name),
{
    let ghost pv = pair_views(sources@);
    let mut i: usize = 0;
    assert(pv.skip(0) =~= pv);
    while i < sources.len()
        invariant
            pv == pair_views(sources@),
            i <= sources@.len(),
            first_source(pv, needle@, by_name) == first_source(pv.skip(i as int), needle@, by_name),
        decreases sources@.len() - i,
    {
        assert(pv.skip(i as int)[0] == (sources@[i as int].0@, sources@[i as int].1@));
        let hit = if by_name {
            str_contains(sources[i].0.as_str(), needle)
        } else {
            str_eq(sources[i].1.as_str(), needle)
        };
        if hit {
            return String::from_str(sources[i].0.as_str());
        }
        assert(pv.skip(i as int).drop_first() =~= pv.skip(i + 1));
        i = i + 1;
    }
    assert(pv.skip(i as int) =~= Seq::<(Seq<char>, Seq<char>)>::empty());
    String::new()
}

/// The first audio source (name, description) whose name contains `monitor`, or empty.
pub fn get_pa_monitor(sources: &Vec<(String, String)>) -> (r: String)
    ensures
        r@ == first_source(pair_views(sources@), "monitor"@, true),
{
    find_source(sources, "monitor", true)
}

/// The name of the first audio source whose description is `desc`, or empty.
pub fn get_pa_source_name(sources: &Vec<(String, String)>, desc: &str) -> (r: String)
    ensures
        r@ == first_source(pair_views(sources@), desc@, false),
{
    find_source(sources, desc, false)
}

/// The first line of `ls` that contains `Current mode:`, if any.
pub open spec fn mode_line(ls: Seq<Seq<char>>) -> Option<Seq<char>>
    decreases ls.len(),
{
    if ls.len() == 0 {
        None
    } else if has_infix(ls[0], "Current mode:"@) {
        Some(ls[0])
    } else {
        mode_line(ls.drop_first())
    }
}

/// SELinux enforces its policy: `getenforce` prints `Enforcing`; when it could not be run,
/// the `Current mode:` line of `sestatus` says `enforcing`.
pub open spec fn selinux_enforcing(getenforce: Option<Seq<char>>, sestatus: Option<Seq<char>>) -> bool {
    match getenforce {
        Some(o) => trim(o) == "Enforcing"@,
        None => match sestatus {
            Some(o) => match mode_line(lines(o)) {
                Some(l) => has_infix(l, "enforcing"@),
                None => false,
            },
            None => false,
        },
    }
}

/// Whether SELinux enforces its policy, from what `getenforce` and `sestatus` printed (`None`
/// for a command that failed; `sestatus` is only consulted when `getenforce` failed).
pub fn is_selinux_enforcing(getenforce: Option<&str>, sestatus: Option<&str>) -> (r: bool)
    ensures
        r == selinux_enforcing(
            match getenforce {
                Some(o) => Some(o@),
                None => None,
            },
            match sestatus {
                Some(o) => Some(o@),
                None => None,
            },
        ),
{
    match getenforce {
        Some(o) => str_eq(trim_str(o), "Enforcing"),
        None => match sestatus {
            Some(o) => {
                let ls = split_lines(o);
                let mut i: usize = 0;
                assert(lines(o@).skip(0) =~= lines(o@));
                while i < ls.len()
                    invariant
                        i <= ls@.len(),
                        str_views(ls@) == lines(o@),
                        mode_line(lines(o@)) == mode_line(lines(o@).skip(i as int)),
                        getenforce is None,
                        sestatus == Some(o),
                    decreases ls@.len() - i,
                {
                    assert(lines(o@).skip(i as int)[0] == ls@[i as int]@);
                    if str_contains(ls[i].as_str(), "Current mode:") {
                        assert(mode_line(lines(o@).skip(i as int)) == Some(ls@[i as int]@));
                        return str_contains(ls[i].as_str(), "enforcing");
                    }
                    assert(lines(o@).skip(i as int).drop_first() =~= lines(o@).skip(i + 1));
                    i = i + 1;
                }
                assert(lines(o@).skip(i as int) =~= Seq::<Seq<char>>::empty());
                false
            },
            None => false,
        },
    }
}

/// Whether an X server runs under Wayland, from what `pgrep -a Xwayland` printed (`None` when
/// it failed).
pub fn is_xwayland_running(pgrep_output: Option<&str>) -> (r: bool)
    ensures
        r == (match pgrep_output {
            Some(o) => has_infix(o@, "Xwayland"@),
            None => false,
        }),
{
    match pgrep_output {
        Some(o) => str_contains(o, "Xwayland"),
        None => false,
    }
}


/// The marker variable set around `sudo` to test whether `sudo -E` keeps the environment.
pub open spec fn sudo_probe_key(pid: u32) -> Seq<char> {
    "__RUSTDESK_SUDO_E_TEST_"@ + decimal_digits(pid as nat)
}

/// The marker variable for the process `pid`.
pub fn sudo_env_probe_key(pid: u32) -> (r: String)
    ensures
        r@ == sudo_probe_key(pid),
{
    let mut k = String::from_str("__RUSTDESK_SUDO_E_TEST_");
    let d = decimal_string(pid as usize);
    k.append(d.as_str());
    k
}

/// Whether `sudo -E` keeps the environment: only checked when running as root, by running
/// `sudo -n -E env` with the marker `<key>=1` set; `probe` is whether that command succeeded and
/// what it printed (`None` when it could not be run).
pub fn sudo_keeps_env(is_root: bool, pid: u32, probe: Option<(bool, String)>) -> (r: bool)
    ensures
        r == (is_root && match probe {
            Some((ok, out)) => ok && has_infix(out@, sudo_probe_key(pid) + "=1"@),
            None => false,
        }),
{
    if !is_root {
        return false;
    }
    match probe {
        Some((ok, out)) => {
            let mut expected = sudo_env_probe_key(pid);
            expected.append("=1");
            ok && str_contains(out.as_str(), expected.as_str())
        },
        None => false,
    }
}

/// The display manager's configuration disables Wayland only in a comment, or enables it.
pub open spec fn login_wayland_config(contents: Seq<char>) -> bool {
    &&& regex_compiles("# *WaylandEnable *= *false"@)
    &&& regex_compiles("WaylandEnable *= *true"@)
    &&& (regex_is_match("# *WaylandEnable *= *false"@, contents) || regex_is_match(
        "WaylandEnable *= *true"@,
        contents,
    ))
}

/// Whether the login screen runs under Wayland, from the first readable display manager
/// configuration (`/etc/gdm3/custom.conf`, then `/etc/gdm/custom.conf`; `None` when neither
/// could be read).
pub fn is_login_wayland(contents: Option<&str>) -> (r: bool)
    ensures
        r == (match contents {
            Some(c) => login_wayland_config(c@),
            None => false,
        }),
{
    let p1 = Pattern::new("# *WaylandEnable *= *false");
    let p2 = Pattern::new("WaylandEnable *= *true");
    match (p1, p2) {
        (Some(a), Some(b)) => match contents {
            Some(c) => a.is_match(c) || b.is_match(c),
            None => false,
        },
        _ => false,
    }
}

/// Headless sessions are allowed when the option is `Y`.
pub fn is_headless_allowed(option_value: &str) -> (r: bool)
    ensures
        r == (option_value@ == "Y"@),
{
    str_eq(option_value, "Y")
}

/// Seat 0 shows a Wayland login screen: its user is a greeter user and its session runs under
/// Wayland.
pub fn is_login_screen_wayland(username_is_gdm: bool, protocol: &str) -> (r: bool)
    ensures
        r == (username_is_gdm && protocol@ == "wayland"@),
{
    username_is_gdm && str_eq(protocol, "wayland")
}

/// Confining the cursor is not done here; the call always succeeds.
pub fn clip_cursor(rect: Option<(i32, i32, i32, i32)>) -> (r: bool)
    ensures
        r,
{
    true
}

/// Blocking input is not done here; it reports success with no message.
pub fn block_input(v: bool) -> (r: (bool, String))
    ensures
        r.0,
        r.1@.len() == 0,
{
    (true, String::new())
}

/// The double-click interval, in milliseconds.
pub fn get_double_click_time() -> (r: u32)
    ensures
        r == 400,
{
    400
}

/// No extra permission is needed to act as super user here.
pub fn check_super_user_permission() -> (r: bool)
    ensures
        r,
{
    true
}

/// The application id under which the shortcut permission is stored: in Flatpak, the Flatpak
/// id (`flatpak_id`, when set and not empty) or one made of the application name; otherwise the
/// lowercased application name; each followed by `.desktop`.
pub open spec fn shortcuts_app_id(in_flatpak: bool, flatpak_id: Option<Seq<char>>, app_name: Seq<char>) -> Seq<
    char,
> {
    if in_flatpak {
        match flatpak_id {
            Some(id) => if id.len() > 0 {
                id + ".desktop"@
            } else {
                "com."@ + lowercase(app_name) + "."@ + app_name + ".desktop"@
            },
            None => "com."@ + lowercase(app_name) + "."@ + app_name + ".desktop"@,
        }
    } else {
        lowercase(app_name) + ".desktop"@
    }
}

/// The application id under which the shortcut permission is stored.
pub fn get_shortcuts_inhibitor_app_id(in_flatpak: bool, flatpak_id: Option<String>, app_name: &str) -> (r:
    String)
    ensures
        r@ == shortcuts_app_id(
            in_flatpak,
            match flatpak_id {
                Some(i) => Some(i@),
                None => None,
            },
            app_name@,
        ),
{
    if in_flatpak {
        match flatpak_id {
            Some(id) => {
                if id.as_str().unicode_len() > 0 {
                    let mut r = id;
                    r.append(".desktop");
                    return r;
                }
            },
            None => {},
        }
        let mut r = String::from_str("com.");
        let lower = to_lowercase_str(app_name);
        r.append(lower.as_str());
        r.append(".");
        r.append(app_name);
        r.append(".desktop");
        r
    } else {
        let mut r = to_lowercase_str(app_name);
        r.append(".desktop");
        r
    }
}

/// The errors that mean the permission was not stored at all.
pub open spec fn missing_permission_error(name: Seq<char>) -> bool {
    name == "org.freedesktop.portal.Error.NotFound"@ || name
        == "org.freedesktop.DBus.Error.UnknownObject"@ || name
        == "org.freedesktop.DBus.Error.ServiceUnknown"@
}

/// Clearing the shortcut permission succeeded, or failed only because there was nothing to
/// clear: `error_name` is the name of the bus error (`None` on success, empty when the error had
/// no name).
pub fn clear_gnome_shortcuts_inhibitor_permission(error_name: Option<&str>) -> (r: bool)
    ensures
        r == (match error_name {
            None => true,
            Some(n) => missing_permission_error(n@),
        }),
{
    match error_name {
        None => true,
        Some(n) => str_eq(n, "org.freedesktop.portal.Error.NotFound") || str_eq(
            n,
            "org.freedesktop.DBus.Error.UnknownObject",
        ) || str_eq(n, "org.freedesktop.DBus.Error.ServiceUnknown"),
    }
}

/// Whether the shortcut permission is stored for `app_id`, given the applications listed in
/// the permission store (`None` when it could not be asked).
pub fn has_gnome_shortcuts_inhibitor_permission(app_ids: Option<&Vec<String>>, app_id: &str) -> (r:
    bool)
    ensures
        r == (match app_ids {
            Some(ids) => str_views(ids@).contains(app_id@),
            None => false,
        }),
{
    match app_ids {
        None => false,
        Some(ids) => {
            let mut i: usize = 0;
            while i < ids.len()
                invariant
                    i <= ids@.len(),
                    forall|j: int| 0 <= j < i ==> ids@[j]@ != app_id@,
                    app_ids == Some(ids),
                decreases ids@.len() - i,
            {
                if str_eq(ids[i].as_str(), app_id) {
                    assert(str_views(ids@)[i as int] == app_id@);
                    return true;
                }
                i = i + 1;
            }
            assert forall|j: int| 0 <= j < str_views(ids@).len() implies str_views(ids@)[j]
                != app_id@ by {
                assert(str_views(ids@)[j] == ids@[j]@);
            }
            false
        },
    }
}

/// The autostart entry that older versions left in the user's home directory, which is
/// removed at start.
pub fn autostart_file(home: &str, app_name: &str) -> (r: String)
    ensures
        r@ == home@ + "/.config/autostart/"@ + lowercase(app_name@) + ".desktop"@,
{
    let mut p = String::from_str(home);
    p.append("/.config/autostart/");
    let lower = to_lowercase_str(app_name);
    p.append(lower.as_str());
    p.append(".desktop");
    p
}

/// The wallpaper settings replaced by a solid colour, kept to be put back.
pub struct WallPaperRemover {
    pub old_path: String,
    pub old_path_dark: Option<String>,
}

/// Why the wallpaper was not removed.
pub enum WallpaperError {
    /// There is no wallpaper: the background already is a solid colour.
    AlreadySolidColor,
}

impl WallPaperRemover {
    /// Keeps the current wallpapers (`old_path`, and the dark-theme one when it could be read)
    /// before they are cleared; fails when neither is set.
    pub fn new(old_path: String, old_path_dark: Option<String>) -> (r: Result<WallPaperRemover, WallpaperError>)
        ensures
            r is Err <==> (old_path@.len() == 0 && match old_path_dark {
                Some(d) => d@.len() == 0,
                None => true,
            }),
            r matches Ok(w) ==> w.old_path@ == old_path@ && w.old_path_dark == old_path_dark,
    {
        let dark_empty = match &old_path_dark {
            Some(d) => d.as_str().unicode_len() == 0,
            None => true,
        };
        if old_path.as_str().unicode_len() == 0 && dark_empty {
            return Err(WallpaperError::AlreadySolidColor);
        }
        Ok(WallPaperRemover { old_path, old_path_dark })
    }

    /// Removing the wallpaper is supported on GNOME-like desktops and on Xfce, when the current
    /// wallpaper can be read (`wallpaper_readable`).
    pub fn support(desktop: &str, wallpaper_readable: bool) -> (r: bool)
        ensures
            r == ((has_infix(desktop@, "GNOME"@) || desktop@ == "Unity"@ || desktop@ == "Pantheon"@
                || desktop@ == "XFCE"@) && wallpaper_readable),
    {
        (str_contains(desktop, "GNOME") || str_eq(desktop, "Unity") || str_eq(desktop, "Pantheon")
            || str_eq(desktop, "XFCE")) && wallpaper_readable
    }
}


/// The last piece of `ls` that starts with `p`, if any.
pub open spec fn last_with_prefix(ls: Seq<Seq<char>>, p: Seq<char>) -> Option<Seq<char>>
    decreases ls.len(),
{
    if ls.len() == 0 {
        None
    } else if has_prefix(ls.last(), p) {
        Some(ls.last())
    } else {
        last_with_prefix(ls.drop_last(), p)
    }
}

/// The value of `name` in a process environment (its `NAME=value` entries separated by NUL):
/// the text after `name=` in the last entry that starts with `name=`, unchanged; empty when
/// there is none or the environment could not be read.
pub open spec fn env_from_environ(name: Seq<char>, environ: Option<Seq<u8>>) -> Seq<char> {
    match environ {
        None => Seq::empty(),
        Some(e) => {
            let key = name + "="@;
            match last_with_prefix(split_char(utf8_lossy(e), '\0'), key) {
                Some(l) => l.subrange(key.len() as int, l.len() as int),
                None => Seq::empty(),
            }
        },
    }
}

/// The value of the variable `name` in the environment of one process (the contents of its
/// `environ` file; `None` when it could not be read).
pub fn get_env_from_pid(name: &str, environ: Option<&[u8]>) -> (r: String)
    ensures
        r@ == env_from_environ(
            name@,
            match environ {
                Some(e) => Some(e@),
                None => None,
            },
        ),
{
    let e = match environ {
        None => {
            return String::new();
        },
        Some(e) => e,
    };
    let mut key = String::from_str(name);
    key.append("=");
    let text = utf8_lossy_string(e);
    let parts = split_on_char(text.as_str(), '\0');
    let ghost lv = split_char(text@, '\0');
    let mut i: usize = parts.len();
    assert(lv.subrange(0, i as int) =~= lv);
    while i > 0
        invariant
            i <= parts@.len(),
            str_views(parts@) == lv,
            last_with_prefix(lv, key@) == last_with_prefix(lv.subrange(0, i as int), key@),
            environ == Some(e),
            key@ == name@ + "="@,
            lv == split_char(utf8_lossy(e@), '\0'),
        decreases i,
    {
        assert(lv.subrange(0, i as int).last() == parts@[i - 1]@);
        assert(lv.subrange(0, i as int).drop_last() =~= lv.subrange(0, i - 1));
        if str_starts_with(parts[i - 1].as_str(), key.as_str()) {
            let p = parts[i - 1].as_str();
            return String::from_str(p.substring_char(key.as_str().unicode_len(), p.unicode_len()));
        }
        i = i - 1;
    }
    String::new()
}

/// A screen resolution.
#[derive(Clone, Copy, Debug, PartialEq, Eq, Structural)]
pub struct Resolution {
    pub width: i32,
    pub height: i32,
}

/// The pattern of the `xrandr` line of a connected output named `name`, capturing the width,
/// height and position of its current mode.
pub open spec fn conn_pattern(name: Seq<char>) -> Seq<char> {
    name + r"\s+connected.+?(?P<width>\d+)x(?P<height>\d+)\+(?P<x>\d+)\+(?P<y>\d+).*?\n"@
}

/// The pattern of the mode lines that follow an output's line.
pub open spec fn modes_pattern() -> Seq<char> {
    r"(?P<resolutions>(\s*\d+x\d+\s+\d+.*\n)+)"@
}

/// The pattern of one mode line, capturing its width and height.
pub open spec fn mode_pattern() -> Seq<char> {
    r"\s*(?P<width>\d+)x(?P<height>\d+)\s+(?P<rates>(\d+\.\d+\D*)+)\s*\n"@
}

/// The pattern of the `xrandr` line of the connected output `name`.
pub fn get_xrandr_conn_pat(name: &str) -> (r: String)
    ensures
        r@ == conn_pattern(name@),
{
    let mut p = String::from_str(name);
    p.append(r"\s+connected.+?(?P<width>\d+)x(?P<height>\d+)\+(?P<x>\d+)\+(?P<y>\d+).*?\n");
    p
}

/// Width and height read from captured texts, when both are present and are `i32` numbers.
pub open spec fn width_height(w: Option<Seq<char>>, h: Option<Seq<char>>) -> Option<(i32, i32)> {
    match (w, h) {
        (Some(a), Some(b)) => match (parse_i32_spec(a), parse_i32_spec(b)) {
            (Some(x), Some(y)) => Some((x, y)),
            _ => None,
        },
        _ => None,
    }
}

/// Width and height read from the captured `width` and `height` texts.
pub fn get_width_height_from_captures(width: Option<&str>, height: Option<&str>) -> (r: Option<(i32, i32)>)
    ensures
        r == width_height(
            match width {
                Some(w) => Some(w@),
                None => None,
            },
            match height {
                Some(h) => Some(h@),
                None => None,
            },
        ),
{
    match (width, height) {
        (Some(w), Some(h)) => match (parse_i32(w), parse_i32(h)) {
            (Some(x), Some(y)) => Some((x, y)),
            _ => None,
        },
        _ => None,
    }
}

/// The distinct resolutions of the mode lines, in the order they first appear.
pub open spec fn mode_list(pairs: Seq<(Option<Seq<char>>, Option<Seq<char>>)>) -> Seq<Resolution>
    decreases pairs.len(),
{
    if pairs.len() == 0 {
        Seq::empty()
    } else {
        let prev = mode_list(pairs.drop_last());
        match width_height(pairs.last().0, pairs.last().1) {
            Some((w, h)) => if prev.contains(Resolution { width: w, height: h }) {
                prev
            } else {
                prev.push(Resolution { width: w, height: h })
            },
            None => prev,
        }
    }
}

/// The modes `xrandr` lists for output `name`: the mode lines after the output's line in the
/// first place where the output is followed by mode lines; empty when there is none or a
/// pattern is refused.
pub open spec fn resolutions_spec(name: Seq<char>, output: Seq<char>) -> Seq<Resolution> {
    let outer = conn_pattern(name) + modes_pattern();
    if !regex_compiles(outer) {
        Seq::empty()
    } else {
        match regex_first_group(outer, output, "resolutions"@) {
            None => Seq::empty(),
            Some(text) => if !regex_compiles(mode_pattern()) {
                Seq::empty()
            } else {
                mode_list(regex_group_pairs(mode_pattern(), text, "width"@, "height"@))
            },
        }
    }
}

fn contains_resolution(v: &Vec<Resolution>, r: Resolution) -> (b: bool)
    ensures
        b == v@.contains(r),
{
    let mut i: usize = 0;
    while i < v.len()
        invariant
            i <= v@.len(),
            forall|j: int| 0 <= j < i ==> v@[j] != r,
        decreases v@.len() - i,
    {
        if v[i].width == r.width && v[i].height == r.height {
            assert(v@[i as int] == r);
            return true;
        }
        i = i + 1;
    }
    false
}

/// The modes of output `name`, from what `xrandr --query | tr -s ' '` printed.
pub fn resolutions(name: &str, xrandr_output: &str) -> (r: Vec<Resolution>)
    ensures
        r@ == resolutions_spec(name@, xrandr_output@),
{
    let mut outer = get_xrandr_conn_pat(name);
    outer.append(r"(?P<resolutions>(\s*\d+x\d+\s+\d+.*\n)+)");
    let re = match Pattern::new(outer.as_str()) {
        None => {
            return Vec::new();
        },
        Some(p) => p,
    };
    let text = match re.first_group(xrandr_output, "resolutions") {
        None => {
            return Vec::new();
        },
        Some(t) => t,
    };
    let mode_re = match Pattern::new(r"\s*(?P<width>\d+)x(?P<height>\d+)\s+(?P<rates>(\d+\.\d+\D*)+)\s*\n") {
        None => {
            return Vec::new();
        },
        Some(p) => p,
    };
    let pairs = mode_re.group_pairs(text.as_str(), "width", "height");
    let ghost pv = pairs@.map_values(
        |p: (Option<String>, Option<String>)| (opt_view(p.0), opt_view(p.1)),
    );
    let mut v: Vec<Resolution> = Vec::new();
    let mut i: usize = 0;
    while i < pairs.len()
        invariant
            i <= pairs@.len(),
            pv == pairs@.map_values(
                |p: (Option<String>, Option<String>)| (opt_view(p.0), opt_view(p.1)),
            ),
            v@ == mode_list(pv.subrange(0, i as int)),
        decreases pairs@.len() - i,
    {
        let ghost sub = pv.subrange(0, i + 1);
        assert(sub.drop_last() =~= pv.subrange(0, i as int));
        assert(sub.last() == (opt_view(pairs@[i as int].0), opt_view(pairs@[i as int].1)));
        let w: Option<&str> = match &pairs[i].0 {
            Some(s) => Some(s.as_str()),
            None => None,
        };
        let h: Option<&str> = match &pairs[i].1 {
            Some(s) => Some(s.as_str()),
            None => None,
        };
        match get_width_height_from_captures(w, h) {
            Some((width, height)) => {
                let res = Resolution { width, height };
                if !contains_resolution(&v, res) {
                    v.push(res);
                }
            },
            None => {},
        }
        i = i + 1;
    }
    assert(pv.subrange(0, pv.len() as int) =~= pv);
    v
}

/// The current mode of output `name`, from what `xrandr --query | tr -s ' '` printed: `None`
/// when the output's line is not found or its mode is not readable.
pub fn current_resolution(name: &str, xrandr_output: &str) -> (r: Option<Resolution>)
    ensures
        r == (if !regex_compiles(conn_pattern(name@)) {
            None
        } else {
            match width_height(
                regex_first_group(conn_pattern(name@), xrandr_output@, "width"@),
                regex_first_group(conn_pattern(name@), xrandr_output@, "height"@),
            ) {
                Some((w, h)) => Some(Resolution { width: w, height: h }),
                None => None,
            }
        }),
{
    let pat = get_xrandr_conn_pat(name);
    let re = match Pattern::new(pat.as_str()) {
        None => {
            return None;
        },
        Some(p) => p,
    };
    let w = re.first_group(xrandr_output, "width");
    let h = re.first_group(xrandr_output, "height");
    let wr: Option<&str> = match &w {
        Some(s) => Some(s.as_str()),
        None => None,
    };
    let hr: Option<&str> = match &h {
        Some(s) => Some(s.as_str()),
        None => None,
    };
    match get_width_height_from_captures(wr, hr) {
        Some((width, height)) => Some(Resolution { width, height }),
        None => None,
    }
}

/// The arguments of `xrandr` that set output `name` to a mode of `width` by `height`.
pub fn change_resolution_directly(name: &str, width: usize, height: usize) -> (r: Vec<String>)
    ensures
        str_views(r@) == seq!["--output"@, name@, "--mode"@, decimal_digits(width as nat) + "x"@
            + decimal_digits(height as nat)],
{
    let mut mode = decimal_string(width);
    mode.append("x");
    let hs = decimal_string(height);
    mode.append(hs.as_str());
    let mut v: Vec<String> = Vec::new();
    v.push(String::from_str("--output"));
    v.push(String::from_str(name));
    v.push(String::from_str("--mode"));
    v.push(mode);
    assert(str_views(v@) =~= seq!["--output"@, name@, "--mode"@, decimal_digits(width as nat) + "x"@
        + decimal_digits(height as nat)]);
    v
}


/// The system is openSUSE: its release file mentions it (`output` is what the search printed,
/// `None` when it failed).
pub fn is_opensuse(output: Option<&str>) -> (r: bool)
    ensures
        r == (match output {
            Some(o) => o@.len() > 0,
            None => false,
        }),
{
    match output {
        Some(o) => o.unicode_len() > 0,
        None => false,
    }
}

/// The cached pair of uid and name, as plain values.
pub open spec fn cache_view(cache: Option<(String, String)>) -> Option<(Seq<char>, Seq<char>)> {
    match cache {
        Some((u, n)) => Some((u@, n@)),
        None => None,
    }
}

/// The active user's uid and name: the cached pair, else the uid and name read from seat 0.
pub open spec fn active_user_id_name(cache: Option<(Seq<char>, Seq<char>)>, seat0: Seq<Seq<char>>) -> (
    Seq<char>,
    Seq<char>,
) {
    match cache {
        Some(p) => p,
        None => (seat0[0], seat0[1]),
    }
}

/// The active user's uid: the cached one, else the one read from seat 0.
pub open spec fn active_userid(cache: Option<(Seq<char>, Seq<char>)>, seat0: Seq<Seq<char>>) -> Seq<char> {
    match cache {
        Some((u, _)) => u,
        None => seat0[0],
    }
}

/// The active user's name: the cached one, else the one read from seat 0.
pub open spec fn active_username(cache: Option<(Seq<char>, Seq<char>)>, seat0: Seq<Seq<char>>) -> Seq<char> {
    match cache {
        Some((_, n)) => n,
        None => seat0[0],
    }
}

/// Asking for the uid or the name alone gives the uid or the name of the pair, as long as the
/// cache and seat 0 do not change between the questions: `pair` is what seat 0 gives for uid
/// and name, `uid` and `name` what it gives for each alone.
pub proof fn lemma_active_user_parts(
    cache: Option<(Seq<char>, Seq<char>)>,
    pair: Seq<Seq<char>>,
    uid: Seq<Seq<char>>,
    name: Seq<Seq<char>>,
)
    requires
        pair.len() >= 2,
        uid.len() >= 1,
        name.len() >= 1,
        uid[0] == pair[0],
        name[0] == pair[1],
    ensures
        active_userid(cache, uid) == active_user_id_name(cache, pair).0,
        active_username(cache, name) == active_user_id_name(cache, pair).1,
{
}

/// The active user's uid and name: the cached pair when there is one, else the values read
/// from seat 0.
pub fn get_active_user_id_name(cache: Option<(String, String)>, seat0: &Vec<String>) -> (r: (String, String))
    requires
        seat0@.len() >= 2,
    ensures
        (r.0@, r.1@) == active_user_id_name(cache_view(cache), str_views(seat0@)),
{
    match cache {
        Some(pair) => pair,
        None => (String::from_str(seat0[0].as_str()), String::from_str(seat0[1].as_str())),
    }
}


/// The last line of `ls` that the pattern `p` matches and that does not contain `grep`.
pub open spec fn last_matching_line(ls: Seq<Seq<char>>, p: Seq<char>) -> Option<Seq<char>>
    decreases ls.len(),
{
    if ls.len() == 0 {
        None
    } else if regex_is_match(p, ls.last()) && !has_infix(ls.last(), "grep"@) {
        Some(ls.last())
    } else {
        last_matching_line(ls.drop_last(), p)
    }
}

/// The process a `ps -u <uid> -f` listing names for the pattern `process`: the second word
/// (the process id) of the last line that the pattern matches and that does not contain
/// `grep`; none when the pattern is refused, no line qualifies or the line has no second word.
pub open spec fn ps_pid(process: Seq<char>, ps_output: Seq<char>) -> Option<Seq<char>> {
    if !regex_compiles(process) {
        None
    } else {
        match last_matching_line(lines(ps_output), process) {
            Some(l) => if words(l).len() > 1 {
                Some(words(l)[1])
            } else {
                None
            },
            None => None,
        }
    }
}

/// The process whose environment gives a variable: picked from what `ps -u <uid> -f` printed
/// (`None` when it failed) for the pattern `process`.
pub fn get_env_pid(process: &str, ps_output: Option<&str>) -> (r: Option<String>)
    ensures
        opt_view(r) == (match ps_output {
            Some(o) => ps_pid(process@, o@),
            None => None,
        }),
{
    let out = match ps_output {
        None => {
            return None;
        },
        Some(o) => o,
    };
    let re = match Pattern::new(process) {
        None => {
            return None;
        },
        Some(p) => p,
    };
    let ls = split_lines(out);
    let ghost lv = lines(out@);
    let mut i: usize = ls.len();
    assert(lv.subrange(0, i as int) =~= lv);
    while i > 0
        invariant
            i <= ls@.len(),
            str_views(ls@) == lv,
            lv == lines(out@),
            re.source() == process@,
            regex_compiles(process@),
            ps_output == Some(out),
            last_matching_line(lv, process@) == last_matching_line(lv.subrange(0, i as int), process@),
        decreases i,
    {
        let ghost sub = lv.subrange(0, i as int);
        assert(sub.last() == ls@[i - 1]@);
        assert(sub.drop_last() =~= lv.subrange(0, i - 1));
        let line = ls[i - 1].as_str();
        if re.is_match(line) && !str_contains(line, "grep") {
            let w = split_words(line);
            if w.len() > 1 {
                assert(str_views(w@)[1] == w@[1]@);
                return Some(String::from_str(w[1].as_str()));
            }
            return None;
        }
        i = i - 1;
    }
    assert(lv.subrange(0, 0) =~= Seq::<Seq<char>>::empty());
    None
}

/// The value of the variable `name` of the process `get_env_pid` picks from `ps_output` for
/// `process`: read from `environ`, the contents of that process's `environ` file (`None` when
/// it could not be read); empty when no process was picked.
pub fn get_env(name: &str, process: &str, ps_output: Option<&str>, environ: Option<&[u8]>) -> (r:
    String)
    ensures
        r@ == (match (match ps_output {
            Some(o) => ps_pid(process@, o@),
            None => None,
        }) {
            Some(_) => env_from_environ(
                name@,
                match environ {
                    Some(e) => Some(e@),
                    None => None,
                },
            ),
            None => Seq::empty(),
        }),
{
    match get_env_pid(process, ps_output) {
        None => String::new(),
        Some(_) => get_env_from_pid(name, environ),
    }
}

/// What the X error handler records: a `BadWindow` error, or an unexpected one.
pub enum XErrorFlag {
    BadWindow,
    Unexpected,
}

/// Code of the X `BadWindow` error.
pub const X11_BAD_WINDOW: u8 = 3;

/// Classifies an X error (`None` when no event came with it): `BadWindow` errors are expected
/// when a window goes away; anything else is unexpected. The handler always returns 0, so the
/// process goes on.
pub fn handle_x_error(error_code: Option<u8>) -> (r: (XErrorFlag, i32))
    ensures
        r.0 == (if error_code == Some(X11_BAD_WINDOW) {
            XErrorFlag::BadWindow
        } else {
            XErrorFlag::Unexpected
        }),
        r.1 == 0,
{
    match error_code {
        Some(c) => if c == X11_BAD_WINDOW {
            (XErrorFlag::BadWindow, 0)
        } else {
            (XErrorFlag::Unexpected, 0)
        },
        None => (XErrorFlag::Unexpected, 0),
    }
}

/// The active user's uid: the cached one when there is one, else the one read from seat 0.
pub fn get_active_userid(cache: Option<(String, String)>, seat0: &Vec<String>) -> (r: String)
    requires
        seat0@.len() >= 1,
    ensures
        r@ == active_userid(cache_view(cache), str_views(seat0@)),
{
    match cache {
        Some((u, _)) => u,
        None => String::from_str(seat0[0].as_str()),
    }
}

/// The active user's name: the cached one when there is one, else the one read from seat 0.
pub fn get_active_username(cache: Option<(String, String)>, seat0: &Vec<String>) -> (r: String)
    requires
        seat0@.len() >= 1,
    ensures
        r@ == active_username(cache_view(cache), str_views(seat0@)),
{
    match cache {
        Some((_, n)) => n,
        None => String::from_str(seat0[0].as_str()),
    }
}

/// The active user's uid as read afresh from seat 0, whatever is cached.
pub fn get_active_userid_fresh(seat0: &Vec<String>) -> (r: String)
    requires
        seat0@.len() >= 1,
    ensures
        r@ == seat0@[0]@,
{
    String::from_str(seat0[0].as_str())
}

} // verus!
