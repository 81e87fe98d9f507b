//! Character-level text handling shared by the configuration parsers.
//!
//! Every parser in this crate works on the `Seq<char>` view of its input:
//! trimming follows Unicode `White_Space` (what `str::trim` uses), case folding
//! is ASCII-only (what `str::to_ascii_lowercase` does), splitting follows
//! `str::split` on a single character, and decimal parsing follows the grammar
//! of `u64::from_str` / `usize::from_str`.
use vstd::prelude::*;

verus! {

// ---------------------------------------------------------------------------
// Mathematical model
// ---------------------------------------------------------------------------

/// The Unicode `White_Space` property, which `char::is_whitespace` and
/// `str::trim` use.
pub open spec fn is_white_space(c: char) -> bool {
    let n = c as u32;
    ||| 0x09 <= n <= 0x0D
    ||| n == 0x20
    ||| n == 0x85
    ||| n == 0xA0
    ||| n == 0x1680
    ||| 0x2000 <= n <= 0x200A
    ||| n == 0x2028
    ||| n == 0x2029
    ||| n == 0x202F
    ||| n == 0x205F
    ||| n == 0x3000
}

/// `s` without its leading white space.
pub open spec fn trim_start(s: Seq<char>) -> Seq<char>
    decreases s.len(),
{
    if s.len() > 0 && is_white_space(s[0]) {
        trim_start(s.drop_first())
    } else {
        s
    }
}

/// `s` without its trailing white space.
pub open spec fn trim_end(s: Seq<char>) -> Seq<char>
    decreases s.len(),
{
    if s.len() > 0 && is_white_space(s.last()) {
        trim_end(s.drop_last())
    } else {
        s
    }
}

/// `s` without leading and trailing white space (`str::trim`).
pub open spec fn trim(s: Seq<char>) -> Seq<char> {
    trim_end(trim_start(s))
}

/// ASCII lower-casing of one character (`char::to_ascii_lowercase`).
pub open spec fn ascii_lower(c: char) -> char {
    if 'A' <= c && c <= 'Z' {
        ((c as u32) + 32) as char
    } else {
        c
    }
}

/// ASCII lower-casing of a text (`str::to_ascii_lowercase`).
pub open spec fn ascii_lowercase(s: Seq<char>) -> Seq<char> {
    s.map_values(|c: char| ascii_lower(c))
}

/// The form in which configuration keywords are compared: trimmed, then
/// ASCII lower-cased.
pub open spec fn normalize(s: Seq<char>) -> Seq<char> {
    ascii_lowercase(trim(s))
}

/// `s` starts with `p`.
pub open spec fn has_prefix(s: Seq<char>, p: Seq<char>) -> bool {
    p.len() <= s.len() && s.take(p.len() as int) == p
}

/// The pieces of `s` between occurrences of `sep`, as `str::split` with a
/// character pattern yields them (always at least one piece).
pub open spec fn split_on(s: Seq<char>, sep: char) -> Seq<Seq<char>>
    decreases s.len(),
{
    if s.len() == 0 {
        seq![Seq::empty()]
    } else {
        let prev = split_on(s.drop_last(), sep);
        if s.last() == sep {
            prev.push(Seq::empty())
        } else {
            prev.update(prev.len() - 1, prev.last().push(s.last()))
        }
    }
}

/// Index of the first occurrence of `c` in `s`.
pub open spec fn find_char(s: Seq<char>, c: char) -> Option<int>
    decreases s.len(),
{
    if s.len() == 0 {
        None
    } else if s[0] == c {
        Some(0)
    } else {
        match find_char(s.drop_first(), c) {
            Some(i) => Some(i + 1),
            None => None,
        }
    }
}

/// Every character of `s` is an ASCII decimal digit.
pub open spec fn all_ascii_digits(s: Seq<char>) -> bool {
    forall|i: int| 0 <= i < s.len() ==> '0' <= #[trigger] s[i] && s[i] <= '9'
}

/// Value of one ASCII decimal digit.
pub open spec fn digit_value(c: char) -> int {
    (c as int) - ('0' as int)
}

/// Value of a string of ASCII digits, most significant first.
pub open spec fn decimal_value(s: Seq<char>) -> int
    decreases s.len(),
{
    if s.len() == 0 {
        0
    } else {
        decimal_value(s.drop_last()) * 10 + digit_value(s.last())
    }
}

/// The digits that `from_str` of an unsigned integer reads: one leading `+`
/// is skipped.
pub open spec fn unsigned_digits(s: Seq<char>) -> Seq<char> {
    if s.len() > 0 && s[0] == '+' {
        s.drop_first()
    } else {
        s
    }
}

/// What `from_str` of an unsigned integer type whose largest value is `max`
/// gives for `s`: an optional `+`, then at least one ASCII digit and nothing
/// else, with a value no larger than `max`.
pub open spec fn parse_unsigned(s: Seq<char>, max: int) -> Option<int> {
    let d = unsigned_digits(s);
    if d.len() > 0 && all_ascii_digits(d) && decimal_value(d) <= max {
        Some(decimal_value(d))
    } else {
        None
    }
}

/// The `(key, value)` views of a list of string pairs.
pub open spec fn pairs_view(v: Seq<(String, String)>) -> Seq<(Seq<char>, Seq<char>)> {
    v.map_values(|p: (String, String)| (p.0@, p.1@))
}

/// The view of an optional string.
pub open spec fn opt_view(o: Option<String>) -> Option<Seq<char>> {
    match o {
        Some(s) => Some(s@),
        None => None,
    }
}

// ---------------------------------------------------------------------------
// Lemmas
// ---------------------------------------------------------------------------

/// `split_on` always yields at least one piece.
pub proof fn lemma_split_on_nonempty(s: Seq<char>, sep: char)
    ensures
        split_on(s, sep).len() >= 1,
    decreases s.len(),
{
    if s.len() > 0 {
        lemma_split_on_nonempty(s.drop_last(), sep);
    }
}

/// If `c` does not occur in `s[..i]`, `find_char` is decided from `i` on.
proof fn lemma_find_char_from(s: Seq<char>, c: char, i: int)
    requires
        0 <= i <= s.len(),
        forall|k: int| 0 <= k < i ==> s[k] != c,
    ensures
        i < s.len() && s[i] == c ==> find_char(s, c) == Some(i),
        i == s.len() ==> find_char(s, c) is None,
    decreases i,
{
    if i > 0 {
        assert forall|k: int| 0 <= k < i - 1 implies s.drop_first()[k] != c by {
            assert(s.drop_first()[k] == s[k + 1]);
        }
        lemma_find_char_from(s.drop_first(), c, i - 1);
    }
}

/// Trimming only removes characters: a trimmed text is a part of the input.
pub proof fn lemma_trim_start_is_suffix(s: Seq<char>)
    ensures
        trim_start(s).len() <= s.len(),
        trim_start(s) == s.skip(s.len() - trim_start(s).len()),
    decreases s.len(),
{
    if s.len() > 0 && is_white_space(s[0]) {
        lemma_trim_start_is_suffix(s.drop_first());
        assert(s.drop_first().skip(s.drop_first().len() - trim_start(s).len()) =~= s.skip(
            s.len() - trim_start(s).len(),
        ));
    } else {
        assert(s.skip(0) =~= s);
    }
}

/// A trimmed text neither starts nor ends with white space.
pub proof fn lemma_trim_edges(s: Seq<char>)
    ensures
        trim(s).len() > 0 ==> !is_white_space(trim(s)[0]) && !is_white_space(trim(s).last()),
{
    lemma_trim_start_edges(s);
    lemma_trim_end_edges(trim_start(s));
}

proof fn lemma_trim_start_edges(s: Seq<char>)
    ensures
        trim_start(s).len() > 0 ==> !is_white_space(trim_start(s)[0]),
    decreases s.len(),
{
    if s.len() > 0 && is_white_space(s[0]) {
        lemma_trim_start_edges(s.drop_first());
    }
}

/// Cutting trailing white space keeps a prefix of the text.
proof fn lemma_trim_end_is_prefix(s: Seq<char>)
    ensures
        trim_end(s).len() <= s.len(),
        trim_end(s) == s.take(trim_end(s).len() as int),
    decreases s.len(),
{
    if s.len() > 0 && is_white_space(s.last()) {
        lemma_trim_end_is_prefix(s.drop_last());
        assert(s.drop_last().take(trim_end(s).len() as int) =~= s.take(trim_end(s).len() as int));
    } else {
        assert(s.take(s.len() as int) =~= s);
    }
}

/// A text that does not start with white space keeps its first character
/// when trailing white space is cut, and ends without white space.
proof fn lemma_trim_end_edges(s: Seq<char>)
    requires
        s.len() > 0 ==> !is_white_space(s[0]),
    ensures
        trim_end(s).len() > 0 ==> !is_white_space(trim_end(s)[0]) && !is_white_space(
            trim_end(s).last(),
        ),
    decreases s.len(),
{
    lemma_trim_end_is_prefix(s);
    if s.len() > 0 && is_white_space(s.last()) {
        lemma_trim_end_edges(s.drop_last());
    }
}

/// A text that neither starts nor ends with white space is its own trim.
pub proof fn lemma_trim_of_trimmed(s: Seq<char>)
    requires
        s.len() > 0 ==> !is_white_space(s[0]) && !is_white_space(s.last()),
    ensures
        trim(s) == s,
{
}

/// Trimming twice is trimming once.
pub proof fn lemma_trim_idempotent(s: Seq<char>)
    ensures
        trim(trim(s)) == trim(s),
{
    lemma_trim_edges(s);
    lemma_trim_of_trimmed(trim(s));
}

/// ASCII lower-casing never turns a character into white space or back.
proof fn lemma_ascii_lower_white_space(c: char)
    ensures
        is_white_space(ascii_lower(c)) == is_white_space(c),
{
}

/// Trimming commutes with ASCII lower-casing.
pub proof fn lemma_trim_lowercase_commute(s: Seq<char>)
    ensures
        trim(ascii_lowercase(s)) == ascii_lowercase(trim(s)),
{
    lemma_trim_start_lowercase(s);
    lemma_trim_end_lowercase(trim_start(s));
}

proof fn lemma_trim_start_lowercase(s: Seq<char>)
    ensures
        trim_start(ascii_lowercase(s)) == ascii_lowercase(trim_start(s)),
    decreases s.len(),
{
    let l = ascii_lowercase(s);
    if s.len() > 0 {
        lemma_ascii_lower_white_space(s[0]);
        assert(l[0] == ascii_lower(s[0]));
        if is_white_space(s[0]) {
            assert(l.drop_first() =~= ascii_lowercase(s.drop_first()));
            lemma_trim_start_lowercase(s.drop_first());
        }
    } else {
        assert(l =~= s);
    }
}

proof fn lemma_trim_end_lowercase(s: Seq<char>)
    ensures
        trim_end(ascii_lowercase(s)) == ascii_lowercase(trim_end(s)),
    decreases s.len(),
{
    let l = ascii_lowercase(s);
    if s.len() > 0 {
        lemma_ascii_lower_white_space(s.last());
        assert(l.last() == ascii_lower(s.last()));
        if is_white_space(s.last()) {
            assert(l.drop_last() =~= ascii_lowercase(s.drop_last()));
            lemma_trim_end_lowercase(s.drop_last());
        }
    } else {
        assert(l =~= s);
    }
}

/// ASCII lower-casing twice is lower-casing once.
pub proof fn lemma_lowercase_idempotent(s: Seq<char>)
    ensures
        ascii_lowercase(ascii_lowercase(s)) == ascii_lowercase(s),
{
    assert(ascii_lowercase(ascii_lowercase(s)) =~= ascii_lowercase(s));
}

/// Normalizing twice is normalizing once: keyword matching depends on the
/// normalized text alone.
pub proof fn lemma_normalize_idempotent(s: Seq<char>)
    ensures
        normalize(normalize(s)) == normalize(s),
{
    lemma_trim_lowercase_commute(trim(s));
    lemma_trim_idempotent(s);
    lemma_lowercase_idempotent(trim(s));
}

/// `c` does not occur in `s`.
pub open spec fn lacks_char(s: Seq<char>, c: char) -> bool {
    forall|i: int| 0 <= i < s.len() ==> s[i] != c
}

/// A text without `sep` is a single piece.
pub proof fn lemma_split_on_without_sep(s: Seq<char>, sep: char)
    requires
        lacks_char(s, sep),
    ensures
        split_on(s, sep) == seq![s],
    decreases s.len(),
{
    if s.len() > 0 {
        assert(lacks_char(s.drop_last(), sep));
        lemma_split_on_without_sep(s.drop_last(), sep);
        assert(s.drop_last().push(s.last()) =~= s);
        assert(split_on(s, sep) =~= seq![s]);
    } else {
        assert(s =~= Seq::<char>::empty());
    }
}

/// Splitting around a separator splits both sides independently.
pub proof fn lemma_split_on_concat(a: Seq<char>, b: Seq<char>, sep: char)
    ensures
        split_on(a + seq![sep] + b, sep) == split_on(a, sep) + split_on(b, sep),
    decreases b.len(),
{
    let x = a + seq![sep] + b;
    if b.len() == 0 {
        assert(x.drop_last() =~= a);
        assert(x =~= a + seq![sep]);
        assert(split_on(x, sep) =~= split_on(a, sep) + split_on(b, sep));
    } else {
        let b1 = b.drop_last();
        let c = b.last();
        assert(x.drop_last() =~= a + seq![sep] + b1);
        lemma_split_on_concat(a, b1, sep);
        lemma_split_on_nonempty(b1, sep);
        lemma_split_on_nonempty(a, sep);
        let pa = split_on(a, sep);
        let pb = split_on(b1, sep);
        if c == sep {
            assert(split_on(x, sep) =~= pa + split_on(b, sep));
        } else {
            assert((pa + pb).update((pa + pb).len() - 1, (pa + pb).last().push(c)) =~= pa
                + pb.update(pb.len() - 1, pb.last().push(c)));
        }
    }
}

/// If `s[i]` is `c` and `c` does not occur before it, `find_char` gives `i`.
pub proof fn lemma_find_char_first(s: Seq<char>, c: char, i: int)
    requires
        0 <= i < s.len(),
        s[i] == c,
        lacks_char(s.take(i), c),
    ensures
        find_char(s, c) == Some(i),
{
    assert forall|k: int| 0 <= k < i implies s[k] != c by {
        assert(s.take(i)[k] == s[k]);
    }
    lemma_find_char_from(s, c, i);
}

/// What `find_char` finds is the first occurrence.
pub proof fn lemma_find_char_found(s: Seq<char>, c: char)
    ensures
        find_char(s, c) matches Some(i) ==> 0 <= i < s.len() && s[i] == c && lacks_char(
            s.take(i),
            c,
        ),
    decreases s.len(),
{
    if s.len() > 0 && s[0] != c {
        lemma_find_char_found(s.drop_first(), c);
        if let Some(j) = find_char(s.drop_first(), c) {
            assert forall|k: int| 0 <= k < j + 1 implies #[trigger] s.take(j + 1)[k] != c by {
                if k > 0 {
                    assert(s.take(j + 1)[k] == s.drop_first().take(j)[k - 1]);
                }
            }
        }
    }
}

/// Trimming keeps a character-free text free of that character.
pub proof fn lemma_trim_lacks_char(s: Seq<char>, c: char)
    requires
        lacks_char(s, c),
    ensures
        lacks_char(trim(s), c),
{
    lemma_trim_start_is_suffix(s);
    lemma_trim_end_is_prefix(trim_start(s));
    let a = s.len() - trim_start(s).len();
    assert forall|i: int| 0 <= i < trim(s).len() implies trim(s)[i] != c by {
        assert(trim(s)[i] == trim_start(s)[i]);
        assert(trim_start(s)[i] == s[a + i]);
    }
}

/// Adding a digit to a digit string multiplies its value by ten and adds the
/// digit.
proof fn lemma_decimal_value_push(s: Seq<char>, c: char)
    ensures
        decimal_value(s.push(c)) == decimal_value(s) * 10 + digit_value(c),
{
    assert(s.push(c).drop_last() =~= s);
}

/// The value of a digit string is at least the value of any of its prefixes.
proof fn lemma_decimal_value_prefix(s: Seq<char>, k: int)
    requires
        0 <= k <= s.len(),
        all_ascii_digits(s),
    ensures
        decimal_value(s.take(k)) <= decimal_value(s),
        decimal_value(s) >= 0,
    decreases s.len() - k,
{
    lemma_decimal_value_nonneg(s);
    if k < s.len() {
        lemma_decimal_value_prefix(s, k + 1);
        assert(s.take(k + 1) =~= s.take(k).push(s[k]));
        lemma_decimal_value_push(s.take(k), s[k]);
        lemma_decimal_value_nonneg(s.take(k));
    } else {
        assert(s.take(k) =~= s);
    }
}

pub proof fn lemma_decimal_value_nonneg(s: Seq<char>)
    requires
        all_ascii_digits(s),
    ensures
        decimal_value(s) >= 0,
    decreases s.len(),
{
    if s.len() > 0 {
        assert(all_ascii_digits(s.drop_last()));
        lemma_decimal_value_nonneg(s.drop_last());
        assert('0' <= s[s.len() - 1]);
    }
}

// ---------------------------------------------------------------------------
// Executable helpers
// ---------------------------------------------------------------------------

/// `String::push`: appends one character to the end of the string.
#[verifier::external_body]
fn string_push(s: &mut String, c: char)
    ensures
        final(s)@ == old(s)@.push(c),
{
    s.push(c);
}

/// The characters of `s`, in order.
pub fn chars_of(s: &str) -> (r: Vec<char>)
    ensures
        r@ == s@,
{
    let mut out: Vec<char> = Vec::new();
    for c in it: s.chars()
        invariant
            out@ == it.seq().take(it.index() as int),
            it.seq() == s@,
    {
        out.push(c);
    }
    out
}

/// A `String` holding the characters `cs[lo..hi]`.
pub fn string_from_chars(cs: &Vec<char>, lo: usize, hi: usize) -> (r: String)
    requires
        lo <= hi <= cs.len(),
    ensures
        r@ == cs@.subrange(lo as int, hi as int),
{
    let mut out = String::new();
    let mut i = lo;
    while i < hi
        invariant
            lo <= i <= hi <= cs.len(),
            out@ == cs@.subrange(lo as int, i as int),
        decreases hi - i,
    {
        string_push(&mut out, cs[i]);
        assert(cs@.subrange(lo as int, i + 1) =~= cs@.subrange(lo as int, i as int).push(cs@[i as int]));
        i += 1;
    }
    out
}

/// Whether `c` has the Unicode `White_Space` property.
pub fn is_white_space_char(c: char) -> (r: bool)
    ensures
        r == is_white_space(c),
{
    let n = c as u32;
    (0x09 <= n && n <= 0x0D) || n == 0x20 || n == 0x85 || n == 0xA0 || n == 0x1680 || (0x2000
        <= n && n <= 0x200A) || n == 0x2028 || n == 0x2029 || n == 0x202F || n == 0x205F || n
        == 0x3000
}

/// The bounds `lo..hi` of the trimmed part of `s`.
pub fn trim_bounds(s: &Vec<char>) -> (r: (usize, usize))
    ensures
        r.0 <= r.1 <= s.len(),
        s@.subrange(r.0 as int, r.1 as int) == trim(s@),
{
    let n = s.len();
    let mut i: usize = 0;
    assert(s@.skip(0) =~= s@);
    while i < n && is_white_space_char(s[i])
        invariant
            i <= n,
            n == s.len(),
            trim_start(s@) == trim_start(s@.skip(i as int)),
        decreases n - i,
    {
        assert(s@.skip(i as int).drop_first() =~= s@.skip(i + 1));
        i += 1;
    }
    assert(trim_start(s@.skip(i as int)) == s@.skip(i as int));
    let mut j: usize = n;
    assert(s@.subrange(i as int, n as int) =~= s@.skip(i as int));
    while j > i && is_white_space_char(s[j - 1])
        invariant
            i <= j <= n,
            n == s.len(),
            trim(s@) == trim_end(s@.subrange(i as int, j as int)),
        decreases j,
    {
        assert(s@.subrange(i as int, j as int).drop_last() =~= s@.subrange(i as int, j - 1));
        j -= 1;
    }
    (i, j)
}

/// The characters `cs[lo..hi]`.
pub fn copy_range(cs: &Vec<char>, lo: usize, hi: usize) -> (r: Vec<char>)
    requires
        lo <= hi <= cs.len(),
    ensures
        r@ == cs@.subrange(lo as int, hi as int),
{
    let mut out: Vec<char> = Vec::new();
    let mut i = lo;
    while i < hi
        invariant
            lo <= i <= hi <= cs.len(),
            out@ == cs@.subrange(lo as int, i as int),
        decreases hi - i,
    {
        out.push(cs[i]);
        assert(cs@.subrange(lo as int, i + 1) =~= cs@.subrange(lo as int, i as int).push(cs@[i as int]));
        i += 1;
    }
    out
}

/// The characters `cs[lo..hi]`, trimmed, as a `String`.
pub fn trimmed_range_string(cs: &Vec<char>, lo: usize, hi: usize) -> (r: String)
    requires
        lo <= hi <= cs.len(),
    ensures
        r@ == trim(cs@.subrange(lo as int, hi as int)),
{
    let part = copy_range(cs, lo, hi);
    let (a, b) = trim_bounds(&part);
    string_from_chars(&part, a, b)
}

/// `s` trimmed, as characters.
pub fn trim_chars(s: &Vec<char>) -> (r: Vec<char>)
    ensures
        r@ == trim(s@),
{
    let (lo, hi) = trim_bounds(s);
    copy_range(s, lo, hi)
}

/// The ASCII lower-case form of `c`.
fn ascii_lower_char(c: char) -> (r: char)
    ensures
        r == ascii_lower(c),
{
    if 'A' <= c && c <= 'Z' {
        let r = ((c as u8) + 32) as char;
        assert((c as u8) as u32 == c as u32);
        r
    } else {
        c
    }
}

/// Whether the characters `s` spell `lit`.
pub fn chars_equal(s: &Vec<char>, lit: &str) -> (r: bool)
    ensures
        r == (s@ == lit@),
{
    let l = chars_of(lit);
    if s.len() != l.len() {
        return false;
    }
    let mut i: usize = 0;
    while i < s.len()
        invariant
            i <= s.len() == l.len(),
            l@ == lit@,
            forall|k: int| 0 <= k < i ==> s@[k] == l@[k],
        decreases s.len() - i,
    {
        if s[i] != l[i] {
            return false;
        }
        i += 1;
    }
    assert(s@ =~= lit@);
    true
}

/// The normalized form of `s`: trimmed, then ASCII lower-cased.
pub fn normalized_chars(s: &str) -> (r: Vec<char>)
    ensures
        r@ == normalize(s@),
{
    let t = trim_chars(&chars_of(s));
    let mut out: Vec<char> = Vec::new();
    let mut i: usize = 0;
    while i < t.len()
        invariant
            i <= t.len(),
            t@ == trim(s@),
            out@ == ascii_lowercase(t@).take(i as int),
        decreases t.len() - i,
    {
        let lc = ascii_lower_char(t[i]);
        out.push(lc);
        assert(ascii_lowercase(t@).take(i + 1) =~= ascii_lowercase(t@).take(i as int).push(lc));
        i += 1;
    }
    assert(ascii_lowercase(t@).take(t.len() as int) =~= ascii_lowercase(t@));
    out
}

/// Whether `s` starts with `p`.
pub fn starts_with_chars(s: &Vec<char>, p: &str) -> (r: bool)
    ensures
        r == has_prefix(s@, p@),
{
    let pc = chars_of(p);
    if pc.len() > s.len() {
        return false;
    }
    let mut i: usize = 0;
    while i < pc.len()
        invariant
            i <= pc.len() <= s.len(),
            pc@ == p@,
            forall|k: int| 0 <= k < i ==> s@[k] == pc@[k],
        decreases pc.len() - i,
    {
        if s[i] != pc[i] {
            assert(s@.take(pc.len() as int)[i as int] != p@[i as int]);
            return false;
        }
        i += 1;
    }
    assert(s@.take(pc.len() as int) =~= p@);
    true
}

/// The index of the first `c` in `s`, if any.
pub fn find_char_index(s: &Vec<char>, c: char) -> (r: Option<usize>)
    ensures
        match r {
            Some(i) => find_char(s@, c) == Some(i as int) && i < s.len(),
            None => find_char(s@, c) is None,
        },
{
    let mut i: usize = 0;
    while i < s.len()
        invariant
            i <= s.len(),
            forall|k: int| 0 <= k < i ==> s@[k] != c,
        decreases s.len() - i,
    {
        if s[i] == c {
            proof {
                lemma_find_char_from(s@, c, i as int);
            }
            return Some(i);
        }
        i += 1;
    }
    proof {
        lemma_find_char_from(s@, c, i as int);
    }
    None
}

/// `u64::from_str` on the characters `s`.
pub fn parse_u64_chars(s: &Vec<char>) -> (r: Option<u64>)
    ensures
        match r {
            Some(v) => parse_unsigned(s@, u64::MAX as int) == Some(v as int),
            None => parse_unsigned(s@, u64::MAX as int) is None,
        },
{
    let start: usize = if s.len() > 0 && s[0] == '+' {
        1
    } else {
        0
    };
    let ghost d = unsigned_digits(s@);
    assert(d =~= s@.skip(start as int));
    if start >= s.len() {
        assert(d.len() == 0);
        return None;
    }
    let mut acc: u64 = 0;
    let mut i: usize = start;
    while i < s.len()
        invariant
            start <= i <= s.len(),
            start < s.len(),
            d == s@.skip(start as int),
            d == unsigned_digits(s@),
            all_ascii_digits(d.take(i - start)),
            acc as int == decimal_value(d.take(i - start)),
        decreases s.len() - i,
    {
        let c = s[i];
        assert(d[i - start] == c);
        if !('0' <= c && c <= '9') {
            assert(!all_ascii_digits(d));
            return None;
        }
        let digit = ((c as u32) - ('0' as u32)) as u64;
        assert(digit as int == digit_value(c));
        assert(d.take(i - start + 1) =~= d.take(i - start).push(c));
        proof {
            lemma_decimal_value_push(d.take(i - start), c);
        }
        match acc.checked_mul(10) {
            Some(m) => match m.checked_add(digit) {
                Some(v) => {
                    acc = v;
                },
                None => {
                    proof {
                        if all_ascii_digits(d) {
                            lemma_decimal_value_prefix(d, i - start + 1);
                            assert(decimal_value(d) > u64::MAX);
                        }
                    }
                    return None;
                },
            },
            None => {
                proof {
                    if all_ascii_digits(d) {
                        lemma_decimal_value_prefix(d, i - start + 1);
                    }
                }
                return None;
            },
        }
        i += 1;
    }
    assert(d.take(i - start) =~= d);
    Some(acc)
}

/// `usize::from_str` on the characters `s`.
pub fn parse_usize_chars(s: &Vec<char>) -> (r: Option<usize>)
    ensures
        match r {
            Some(v) => parse_unsigned(s@, usize::MAX as int) == Some(v as int),
            None => parse_unsigned(s@, usize::MAX as int) is None,
        },
{
    match parse_u64_chars(s) {
        Some(v) => {
            if v as u128 <= usize::MAX as u128 {
                Some(v as usize)
            } else {
                None
            }
        },
        None => None,
    }
}

} // verus!
