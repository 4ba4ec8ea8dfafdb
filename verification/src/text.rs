//! Reading and building text, over sequences of characters.
use vstd::prelude::*;
use vstd::string::*;

verus! {

/// `String::push` appends one character to the text.
pub assume_specification[ String::push ](s: &mut String, c: char)
    ensures
        final(s)@ == old(s)@.push(c),
;

/// What `str::to_lowercase` makes of a text.
pub uninterp spec fn lowercase_of(s: Seq<char>) -> Seq<char>;

/// `str::to_lowercase`: the lower case of a text is a matter of the text alone.
pub assume_specification[ str::to_lowercase ](s: &str) -> (r: String)
    ensures
        r@ == lowercase_of(s@),
;

/// Whether `char::is_alphabetic` holds of a character.
pub uninterp spec fn alphabetic(c: char) -> bool;

/// `char::is_alphabetic`: whether a character is alphabetic is a matter of the
/// character alone.
pub assume_specification[ char::is_alphabetic ](c: char) -> (r: bool)
    ensures
        r == alphabetic(c),
;

/// How many bytes `s` takes in UTF-8.
pub open spec fn byte_len(s: Seq<char>) -> nat {
    vstd::utf8::encode_utf8(s).len()
}

/// How many bytes `s` takes in UTF-8.
pub fn byte_length(s: &str) -> (n: usize)
    ensures
        n == byte_len(s@),
{
    s.as_bytes().len()
}

/// The characters of `s`, in order.
pub fn chars_of(s: &str) -> (v: Vec<char>)
    ensures
        v@ == s@,
{
    let mut v: Vec<char> = Vec::new();
    for c in it: s.chars()
        invariant
            v@ == s@.take(it.index()),
            it.seq() == s@,
    {
        v.push(c);
        assert(s@.take(it.index() + 1) == s@.take(it.index()).push(c));
    }
    assert(s@.take(s@.len() as int) == s@);
    v
}

/// The text whose characters are `v`.
pub fn string_of(v: &Vec<char>) -> (s: String)
    ensures
        s@ == v@,
{
    let mut s: String = String::new();
    let mut i: usize = 0;
    while i < v.len()
        invariant
            i <= v@.len(),
            s@ == v@.take(i as int),
        decreases v@.len() - i,
    {
        s.push(v[i]);
        i = i + 1;
        assert(v@.take(i as int) == v@.take(i - 1).push(v@[i - 1]));
    }
    assert(v@.take(v@.len() as int) == v@);
    s
}

/// Whether `c` has the Unicode property White_Space.
pub open spec fn is_white(c: char) -> bool {
    let n = c as u32;
    ||| 0x09 <= n <= 0x0d
    ||| n == 0x20
    ||| n == 0x85
    ||| n == 0xa0
    ||| n == 0x1680
    ||| 0x2000 <= n <= 0x200a
    ||| n == 0x2028
    ||| n == 0x2029
    ||| n == 0x202f
    ||| n == 0x205f
    ||| n == 0x3000
}

/// Whether `c` has the Unicode property White_Space.
pub fn is_white_space(c: char) -> (r: bool)
    ensures
        r == is_white(c),
{
    let n: u32 = c as u32;
    (0x09 <= n && n <= 0x0d) || n == 0x20 || n == 0x85 || n == 0xa0 || n == 0x1680 || (0x2000 <= n
        && n <= 0x200a) || n == 0x2028 || n == 0x2029 || n == 0x202f || n == 0x205f || n == 0x3000
}

// ---------------------------------------------------------------------------
// Pieces of a text
// ---------------------------------------------------------------------------

/// The views of a list of character vectors.
pub open spec fn texts(v: Seq<Vec<char>>) -> Seq<Seq<char>> {
    v.map_values(|t: Vec<char>| t@)
}

/// The views of a list of strings.
pub open spec fn strings(v: Seq<String>) -> Seq<Seq<char>> {
    v.map_values(|t: String| t@)
}

/// Whether `a` and `b` hold the same characters.
pub fn same_text(a: &Vec<char>, b: &Vec<char>) -> (r: bool)
    ensures
        r == (a@ == b@),
{
    if a.len() != b.len() {
        return false;
    }
    let mut i: usize = 0;
    while i < a.len()
        invariant
            a@.len() == b@.len(),
            i <= a@.len(),
            forall|k: int| 0 <= k < i ==> a@[k] == b@[k],
        decreases a@.len() - i,
    {
        if a[i] != b[i] {
            return false;
        }
        i = i + 1;
    }
    assert(a@ =~= b@);
    true
}

/// A copy of the characters `from..to` of `s`.
pub fn copy_range(s: &Vec<char>, from: usize, to: usize) -> (v: Vec<char>)
    requires
        from <= to <= s@.len(),
    ensures
        v@ == s@.subrange(from as int, to as int),
{
    let mut v: Vec<char> = Vec::new();
    let mut i: usize = from;
    while i < to
        invariant
            from <= i <= to <= s@.len(),
            v@ == s@.subrange(from as int, i as int),
        decreases to - i,
    {
        v.push(s[i]);
        i = i + 1;
        assert(s@.subrange(from as int, i as int) == s@.subrange(from as int, i - 1).push(
            s@[i - 1],
        ));
    }
    v
}

/// `s` without the white space it starts with.
pub open spec fn trimmed_start(s: Seq<char>) -> Seq<char>
    decreases s.len(),
{
    if s.len() > 0 && is_white(s[0]) {
        trimmed_start(s.skip(1))
    } else {
        s
    }
}

/// `s` without the white space it ends with.
pub open spec fn trimmed_end(s: Seq<char>) -> Seq<char>
    decreases s.len(),
{
    if s.len() > 0 && is_white(s.last()) {
        trimmed_end(s.drop_last())
    } else {
        s
    }
}

/// `s` without the white space at both of its ends.
pub open spec fn trimmed(s: Seq<char>) -> Seq<char> {
    trimmed_end(trimmed_start(s))
}

/// `s` without the white space it ends with.
pub fn trim_end(s: &Vec<char>) -> (v: Vec<char>)
    ensures
        v@ == trimmed_end(s@),
{
    let mut n: usize = s.len();
    assert(s@.take(n as int) == s@);
    while n > 0 && is_white_space(s[n - 1])
        invariant
            n <= s@.len(),
            trimmed_end(s@) == trimmed_end(s@.take(n as int)),
        decreases n,
    {
        assert(s@.take(n as int).drop_last() == s@.take(n - 1));
        n = n - 1;
    }
    copy_range(s, 0, n)
}

/// `s` without the white space at both of its ends.
pub fn trim(s: &Vec<char>) -> (v: Vec<char>)
    ensures
        v@ == trimmed(s@),
{
    let mut i: usize = 0;
    assert(s@.skip(0) == s@);
    while i < s.len() && is_white_space(s[i])
        invariant
            i <= s@.len(),
            trimmed_start(s@) == trimmed_start(s@.skip(i as int)),
        decreases s@.len() - i,
    {
        assert(s@.skip(i as int).skip(1) == s@.skip(i + 1));
        i = i + 1;
    }
    let front = copy_range(s, i, s.len());
    assert(front@ == s@.skip(i as int));
    trim_end(&front)
}

/// The pieces of `s` between the characters that `is_sep` picks: one more
/// piece than there are such characters.
pub open spec fn split_where(s: Seq<char>, is_sep: spec_fn(char) -> bool) -> Seq<Seq<char>>
    decreases s.len(),
{
    if s.len() == 0 {
        seq![Seq::<char>::empty()]
    } else {
        let before = split_where(s.drop_last(), is_sep);
        if is_sep(s.last()) {
            before.push(Seq::<char>::empty())
        } else {
            before.drop_last().push(before.last().push(s.last()))
        }
    }
}

/// Picks one character.
pub open spec fn only(sep: char) -> spec_fn(char) -> bool {
    |c: char| c == sep
}

/// Picks white space.
pub open spec fn white() -> spec_fn(char) -> bool {
    |c: char| is_white(c)
}

/// The pieces of `s` between the occurrences of `sep`.
pub open spec fn pieces(s: Seq<char>, sep: char) -> Seq<Seq<char>> {
    split_where(s, only(sep))
}

/// The non-empty pieces of `s` between white space.
pub open spec fn words(s: Seq<char>) -> Seq<Seq<char>> {
    split_where(s, white()).filter(|w: Seq<char>| w.len() > 0)
}

proof fn lemma_split_nonempty(s: Seq<char>, is_sep: spec_fn(char) -> bool)
    ensures
        split_where(s, is_sep).len() > 0,
    decreases s.len(),
{
    if s.len() > 0 {
        lemma_split_nonempty(s.drop_last(), is_sep);
    }
}

/// The pieces of `s` between the occurrences of `sep`.
pub fn split_on(s: &Vec<char>, sep: char) -> (v: Vec<Vec<char>>)
    ensures
        texts(v@) == pieces(s@, sep),
        v@.len() > 0,
{
    let mut v: Vec<Vec<char>> = Vec::new();
    let mut cur: Vec<char> = Vec::new();
    let mut i: usize = 0;
    assert(texts(v@).push(cur@) == pieces(s@.take(0), sep));
    while i < s.len()
        invariant
            i <= s@.len(),
            texts(v@).push(cur@) == pieces(s@.take(i as int), sep),
        decreases s@.len() - i,
    {
        let c: char = s[i];
        let ghost before = texts(v@).push(cur@);
        let ghost piece = cur@;
        let ghost done = v@;
        assert(s@.take(i + 1).drop_last() == s@.take(i as int));
        if c == sep {
            v.push(cur);
            assert(texts(v@) == texts(done).push(piece));
            cur = Vec::new();
        } else {
            cur.push(c);
            assert(before.drop_last() == texts(done));
            assert(before.last() == piece);
        }
        i = i + 1;
    }
    assert(s@.take(s@.len() as int) == s@);
    let ghost last = cur@;
    let ghost done = v@;
    v.push(cur);
    assert(texts(v@) == texts(done).push(last));
    v
}

proof fn lemma_words_push(before: Seq<Seq<char>>, w: Seq<char>)
    ensures
        before.push(w).filter(|w: Seq<char>| w.len() > 0) == if w.len() > 0 {
            before.filter(|w: Seq<char>| w.len() > 0).push(w)
        } else {
            before.filter(|w: Seq<char>| w.len() > 0)
        },
{
    reveal(Seq::filter);
    assert(before.push(w).drop_last() == before);
}

/// The non-empty pieces of `s` between white space.
pub fn split_words(s: &Vec<char>) -> (v: Vec<Vec<char>>)
    ensures
        texts(v@) == words(s@),
{
    let mut v: Vec<Vec<char>> = Vec::new();
    let mut cur: Vec<char> = Vec::new();
    let mut i: usize = 0;
    let ghost mut closed = Seq::<Seq<char>>::empty();
    proof {
        reveal(Seq::filter);
        assert(closed.push(cur@) == split_where(s@.take(0), white()));
        assert(texts(v@) == closed.filter(|w: Seq<char>| w.len() > 0));
    }
    while i < s.len()
        invariant
            i <= s@.len(),
            closed.push(cur@) == split_where(s@.take(i as int), white()),
            texts(v@) == closed.filter(|w: Seq<char>| w.len() > 0),
        decreases s@.len() - i,
    {
        let c: char = s[i];
        let ghost before = closed.push(cur@);
        let ghost piece = cur@;
        let ghost done = v@;
        assert(s@.take(i + 1).drop_last() == s@.take(i as int));
        if is_white_space(c) {
            proof {
                lemma_words_push(closed, piece);
                closed = closed.push(piece);
            }
            if cur.len() > 0 {
                v.push(cur);
                assert(texts(v@) == texts(done).push(piece));
            }
            cur = Vec::new();
        } else {
            cur.push(c);
            assert(before.drop_last() == closed);
            assert(before.last() == piece);
        }
        i = i + 1;
    }
    assert(s@.take(s@.len() as int) == s@);
    let ghost last = cur@;
    let ghost done = v@;
    proof {
        lemma_words_push(closed, last);
    }
    if cur.len() > 0 {
        v.push(cur);
        assert(texts(v@) == texts(done).push(last));
    }
    v
}

/// A line without the carriage return that stood before its line feed.
pub open spec fn without_cr(s: Seq<char>) -> Seq<char> {
    if s.len() > 0 && s.last() == '\r' {
        s.drop_last()
    } else {
        s
    }
}

/// The lines of `s`: the pieces that a line feed ends, each without a carriage
/// return right before that line feed, and what follows the last line feed,
/// where anything does.
pub open spec fn lines(s: Seq<char>) -> Seq<Seq<char>> {
    let all = pieces(s, '\n');
    let ended = all.drop_last().map_values(|l: Seq<char>| without_cr(l));
    if all.last().len() > 0 {
        ended.push(all.last())
    } else {
        ended
    }
}

/// The lines of `s`.
pub fn split_lines(s: &Vec<char>) -> (v: Vec<Vec<char>>)
    ensures
        texts(v@) == lines(s@),
{
    let mut all = split_on(s, '\n');
    let ghost parts = texts(all@);
    let last = all.pop().unwrap();
    assert(texts(all@) == parts.drop_last());
    let mut v: Vec<Vec<char>> = Vec::new();
    let mut i: usize = 0;
    while i < all.len()
        invariant
            i <= all@.len(),
            texts(v@) == texts(all@).take(i as int).map_values(|l: Seq<char>| without_cr(l)),
        decreases all@.len() - i,
    {
        let n: usize = all[i].len();
        let line = if n > 0 && all[i][n - 1] == '\r' {
            copy_range(&all[i], 0, n - 1)
        } else {
            copy_range(&all[i], 0, n)
        };
        assert(line@ == without_cr(texts(all@)[i as int]));
        let ghost done = v@;
        v.push(line);
        assert(texts(v@) == texts(done).push(line@));
        i = i + 1;
        assert(texts(all@).take(i as int) == texts(all@).take(i - 1).push(texts(all@)[i - 1]));
    }
    assert(texts(all@).take(all@.len() as int) == texts(all@));
    if last.len() > 0 {
        let ghost done = v@;
        let ghost l = last@;
        v.push(last);
        assert(texts(v@) == texts(done).push(l));
    }
    v
}

/// Whether `p` stands in `s` from position `i` on.
pub open spec fn occurs_at(s: Seq<char>, p: Seq<char>, i: int) -> bool {
    0 <= i && i + p.len() <= s.len() && s.subrange(i, i + p.len()) == p
}

/// Whether `p` stands anywhere in `s`.
pub open spec fn has_part(s: Seq<char>, p: Seq<char>) -> bool {
    exists|i: int| #[trigger] occurs_at(s, p, i)
}

/// Whether `p` stands in `s` from position `i` on.
pub fn part_at(s: &Vec<char>, p: &Vec<char>, i: usize) -> (r: bool)
    ensures
        r == occurs_at(s@, p@, i as int),
{
    let n: usize = s.len();
    if i > n || p.len() > n - i {
        return false;
    }
    let mut k: usize = 0;
    while k < p.len()
        invariant
            n == s@.len(),
            i + p@.len() <= n,
            k <= p@.len(),
            forall|m: int| 0 <= m < k ==> s@[i + m] == p@[m],
        decreases p@.len() - k,
    {
        if s[i + k] != p[k] {
            assert(s@.subrange(i as int, i + p@.len())[k as int] != p@[k as int]);
            return false;
        }
        k = k + 1;
    }
    assert(s@.subrange(i as int, i + p@.len()) == p@);
    true
}

/// Whether `s` starts with `p`.
pub fn starts_with(s: &Vec<char>, p: &Vec<char>) -> (r: bool)
    ensures
        r == occurs_at(s@, p@, 0),
{
    part_at(s, p, 0)
}

/// Whether `p` stands anywhere in `s`.
pub fn contains_part(s: &Vec<char>, p: &Vec<char>) -> (r: bool)
    ensures
        r == has_part(s@, p@),
{
    let mut i: usize = 0;
    while i < s.len()
        invariant
            i <= s@.len(),
            forall|k: int| 0 <= k < i ==> !#[trigger] occurs_at(s@, p@, k),
        decreases s@.len() - i,
    {
        if part_at(s, p, i) {
            return true;
        }
        i = i + 1;
    }
    part_at(s, p, i)
}

/// The texts of `parts`, one after the other, with `sep` between two of them.
pub open spec fn joined(parts: Seq<Seq<char>>, sep: Seq<char>) -> Seq<char>
    decreases parts.len(),
{
    if parts.len() == 0 {
        Seq::empty()
    } else if parts.len() == 1 {
        parts[0]
    } else {
        joined(parts.drop_last(), sep) + sep + parts.last()
    }
}

/// Appends the characters of `t`.
pub fn push_text(s: &mut Vec<char>, t: &Vec<char>)
    ensures
        final(s)@ == old(s)@ + t@,
{
    let mut i: usize = 0;
    while i < t.len()
        invariant
            i <= t@.len(),
            s@ == old(s)@ + t@.take(i as int),
        decreases t@.len() - i,
    {
        s.push(t[i]);
        i = i + 1;
        assert(t@.take(i as int) == t@.take(i - 1).push(t@[i - 1]));
    }
    assert(t@.take(t@.len() as int) == t@);
}

/// The texts of `parts`, one after the other, with `sep` between two of them.
pub fn join(parts: &Vec<Vec<char>>, sep: &Vec<char>) -> (v: Vec<char>)
    ensures
        v@ == joined(texts(parts@), sep@),
{
    let mut v: Vec<char> = Vec::new();
    let mut i: usize = 0;
    while i < parts.len()
        invariant
            i <= parts@.len(),
            v@ == joined(texts(parts@).take(i as int), sep@),
        decreases parts@.len() - i,
    {
        if i > 0 {
            push_text(&mut v, sep);
        }
        push_text(&mut v, &parts[i]);
        i = i + 1;
        assert(texts(parts@).take(i as int).drop_last() == texts(parts@).take(i - 1));
        assert(texts(parts@).take(i as int).last() == parts@[i - 1]@);
    }
    assert(texts(parts@).take(parts@.len() as int) == texts(parts@));
    v
}

/// How many characters of `s` stand before the first `c`: all of them, where
/// there is none.
pub open spec fn find(s: Seq<char>, c: char) -> nat
    decreases s.len(),
{
    if s.len() == 0 || s[0] == c {
        0
    } else {
        1 + find(s.skip(1), c)
    }
}

/// How many characters of `s` stand before the first `c`.
pub fn find_char(s: &Vec<char>, c: char) -> (n: usize)
    ensures
        n == find(s@, c),
        n <= s@.len(),
        n < s@.len() ==> s@[n as int] == c,
        forall|k: int| 0 <= k < n ==> s@[k] != c,
{
    let mut i: usize = 0;
    assert(s@.skip(0) == s@);
    while i < s.len() && s[i] != c
        invariant
            i <= s@.len(),
            find(s@, c) == i + find(s@.skip(i as int), c),
            forall|k: int| 0 <= k < i ==> s@[k] != c,
        decreases s@.len() - i,
    {
        assert(s@.skip(i as int).skip(1) == s@.skip(i + 1));
        i = i + 1;
    }
    i
}

// ---------------------------------------------------------------------------
// Numbers
// ---------------------------------------------------------------------------

/// The decimal digit for `d`.
pub open spec fn digit(d: nat) -> char {
    ('0' as u32 + d) as char
}

/// The decimal notation of `n`.
pub open spec fn decimal(n: nat) -> Seq<char>
    decreases n,
{
    if n < 10 {
        seq![digit(n)]
    } else {
        decimal(n / 10).push(digit(n % 10))
    }
}

/// The decimal notation of `n`, with a sign where `n` is negative.
pub open spec fn signed_decimal(n: int) -> Seq<char> {
    if n < 0 {
        seq!['-'] + decimal((-n) as nat)
    } else {
        decimal(n as nat)
    }
}

/// Whether `c` is one of `0` to `9`.
pub open spec fn is_digit(c: char) -> bool {
    '0' <= c <= '9'
}

/// The number whose decimal digits are `s`.
pub open spec fn digits_value(s: Seq<char>) -> nat
    decreases s.len(),
{
    if s.len() == 0 {
        0
    } else {
        digits_value(s.drop_last()) * 10 + (s.last() as u32 - '0' as u32) as nat
    }
}

/// Whether every character of `s` is a decimal digit.
pub open spec fn all_digits(s: Seq<char>) -> bool {
    forall|k: int| 0 <= k < s.len() ==> is_digit(#[trigger] s[k])
}

/// `s` without one plus sign at its start.
pub open spec fn without_plus(s: Seq<char>) -> Seq<char> {
    if s.len() > 0 && s[0] == '+' {
        s.skip(1)
    } else {
        s
    }
}

/// The number that `s` writes in decimal digits, where it does, up to `max`.
/// One plus sign may stand before the digits.
pub open spec fn parsed_number(s: Seq<char>, max: nat) -> Option<nat> {
    let digits = without_plus(s);
    if digits.len() > 0 && all_digits(digits) && digits_value(digits) <= max {
        Some(digits_value(digits))
    } else {
        None
    }
}

/// Whether `c` is one of `0` to `9`.
pub fn is_decimal_digit(c: char) -> (r: bool)
    ensures
        r == is_digit(c),
{
    '0' <= c && c <= '9'
}

/// The decimal digit for `d`.
fn digit_char(d: u64) -> (c: char)
    requires
        d < 10,
    ensures
        c == digit(d as nat),
{
    (48u8 + d as u8) as char
}

/// The decimal notation of `n`.
pub fn format_u64(n: u64) -> (v: Vec<char>)
    ensures
        v@ == decimal(n as nat),
    decreases n,
{
    if n < 10 {
        let mut v: Vec<char> = Vec::new();
        v.push(digit_char(n));
        v
    } else {
        let mut v = format_u64(n / 10);
        v.push(digit_char(n % 10));
        v
    }
}

/// The decimal notation of `n`, with a sign where `n` is negative.
pub fn format_i32(n: i32) -> (v: Vec<char>)
    ensures
        v@ == signed_decimal(n as int),
{
    if n < 0 {
        let mut v: Vec<char> = Vec::new();
        v.push('-');
        let m: i64 = -(n as i64);
        let rest = format_u64(m as u64);
        push_text(&mut v, &rest);
        v
    } else {
        format_u64(n as u64)
    }
}

proof fn lemma_digits_value_grows(s: Seq<char>, i: int)
    requires
        0 <= i <= s.len(),
        all_digits(s),
    ensures
        digits_value(s.take(i)) <= digits_value(s),
    decreases s.len() - i,
{
    if i < s.len() {
        lemma_digits_value_grows(s, i + 1);
        assert(s.take(i + 1).drop_last() == s.take(i));
    } else {
        assert(s.take(i) == s);
    }
}

/// The number that `s` writes in decimal digits, where it does, up to `max`.
pub fn parse_number(s: &Vec<char>, max: u32) -> (r: Option<u32>)
    ensures
        match parsed_number(s@, max as nat) {
            Some(n) => r == Some(n as u32) && n <= max,
            None => r is None,
        },
{
    let from: usize = if s.len() > 0 && s[0] == '+' {
        1
    } else {
        0
    };
    let ghost digits = s@.skip(from as int);
    assert(from == 0 ==> digits =~= s@);
    if from == s.len() {
        return None;
    }
    let mut value: u64 = 0;
    let mut i: usize = from;
    assert(digits.take(0) == Seq::<char>::empty());
    while i < s.len()
        invariant
            from <= i <= s@.len(),
            digits == s@.skip(from as int),
            digits == without_plus(s@),
            forall|k: int| 0 <= k < i - from ==> is_digit(#[trigger] digits[k]),
            value == digits_value(digits.take(i - from)),
            value <= max,
        decreases s@.len() - i,
    {
        let c: char = s[i];
        assert(c == digits[i - from]);
        if !is_decimal_digit(c) {
            assert(!is_digit(digits[i - from]));
            return None;
        }
        let d: u32 = c as u32 - '0' as u32;
        value = value * 10 + d as u64;
        assert(digits.take(i + 1 - from).drop_last() == digits.take(i - from));
        i = i + 1;
        if value > max as u64 {
            proof {
                if all_digits(digits) {
                    lemma_digits_value_grows(digits, i - from);
                }
            }
            return None;
        }
    }
    assert(digits.take(digits.len() as int) == digits);
    Some(value as u32)
}

/// The number that `s` writes in decimal digits, where it does and it fits an
/// `i32`. One sign may stand before the digits.
pub open spec fn parsed_integer(s: Seq<char>) -> Option<int> {
    if s.len() > 0 && s[0] == '-' {
        let digits = s.skip(1);
        if digits.len() > 0 && all_digits(digits) && digits_value(digits) <= -(i32::MIN as int) {
            Some(-(digits_value(digits) as int))
        } else {
            None
        }
    } else {
        match parsed_number(s, i32::MAX as nat) {
            Some(n) => Some(n as int),
            None => None,
        }
    }
}

/// The number that `s` writes in decimal digits, where it does and it fits an
/// `i32`.
pub fn parse_integer(s: &Vec<char>) -> (r: Option<i32>)
    ensures
        match parsed_integer(s@) {
            Some(n) => r == Some(n as i32) && i32::MIN <= n <= i32::MAX,
            None => r is None,
        },
{
    if s.len() > 0 && s[0] == '-' {
        let digits = copy_range(s, 1, s.len());
        assert(digits@ == s@.skip(1));
        if digits.len() > 0 && digits[0] == '+' {
            assert(!is_digit(digits@[0]));
            return None;
        }
        match parse_number(&digits, 0x8000_0000) {
            Some(n) => {
                let m: i64 = -(n as i64);
                Some(m as i32)
            },
            None => None,
        }
    } else {
        match parse_number(s, 0x7fff_ffff) {
            Some(n) => Some(n as i32),
            None => None,
        }
    }
}

// ---------------------------------------------------------------------------
// Laws
// ---------------------------------------------------------------------------

/// The decimal notation of a number is made of digits and writes that number.
pub proof fn decimal_reads_back(n: nat)
    ensures
        decimal(n).len() > 0,
        all_digits(decimal(n)),
        digits_value(decimal(n)) == n,
    decreases n,
{
    let d = decimal(n);
    if n < 10 {
        assert(d.drop_last() == Seq::<char>::empty());
        assert(digits_value(d.drop_last()) == 0);
    } else {
        decimal_reads_back(n / 10);
        let head = decimal(n / 10);
        assert(d.drop_last() == head);
        assert forall|k: int| 0 <= k < d.len() implies is_digit(#[trigger] d[k]) by {
            if k < head.len() {
                assert(is_digit(head[k]));
            }
        }
    }
}

/// The decimal notation of a number that fits an `i32` reads back as that
/// number.
pub proof fn integer_reads_back(n: int)
    requires
        i32::MIN <= n <= i32::MAX,
    ensures
        parsed_integer(signed_decimal(n)) == Some(n),
{
    if n < 0 {
        decimal_reads_back((-n) as nat);
        assert(signed_decimal(n).skip(1) == decimal((-n) as nat));
    } else {
        decimal_reads_back(n as nat);
        let d = decimal(n as nat);
        assert(is_digit(d[0]));
    }
}

/// Whether `c` does not stand in `s`.
pub open spec fn lacks(s: Seq<char>, c: char) -> bool {
    forall|k: int| 0 <= k < s.len() ==> #[trigger] s[k] != c
}

proof fn lemma_pieces_append(s: Seq<char>, t: Seq<char>, sep: char)
    requires
        lacks(t, sep),
    ensures
        pieces(s + t, sep) == pieces(s, sep).drop_last().push(pieces(s, sep).last() + t),
    decreases t.len(),
{
    lemma_split_nonempty(s, only(sep));
    let base = pieces(s, sep);
    if t.len() == 0 {
        assert(s + t == s);
        assert(base.last() + t == base.last());
        assert(base == base.drop_last().push(base.last()));
    } else {
        let front = t.drop_last();
        assert(lacks(front, sep));
        lemma_pieces_append(s, front, sep);
        assert((s + t).drop_last() == s + front);
        assert((s + t).last() == t.last());
        assert(t[t.len() - 1] != sep);
        assert((base.last() + front).push(t.last()) == base.last() + t);
        let before = pieces(s + front, sep);
        assert(before.drop_last() == base.drop_last());
        assert(before.last() == base.last() + front);
    }
}

/// Texts that do not hold the separator come back from what they were joined
/// to.
pub proof fn joined_texts_split_back(parts: Seq<Seq<char>>, sep: char)
    requires
        parts.len() > 0,
        forall|i: int| 0 <= i < parts.len() ==> lacks(#[trigger] parts[i], sep),
    ensures
        pieces(joined(parts, seq![sep]), sep) == parts,
    decreases parts.len(),
{
    let last = parts.last();
    assert(lacks(parts[parts.len() - 1], sep));
    if parts.len() == 1 {
        let none = Seq::<char>::empty();
        lemma_pieces_append(none, last, sep);
        assert(none + last == last);
        assert(pieces(none, sep) == seq![none]);
        assert(seq![none].drop_last().push(none + last) == parts);
    } else {
        let front = parts.drop_last();
        assert forall|i: int| 0 <= i < front.len() implies lacks(#[trigger] front[i], sep) by {
            assert(front[i] == parts[i]);
        }
        joined_texts_split_back(front, sep);
        let head = joined(front, seq![sep]);
        let ended = head + seq![sep];
        assert(ended.drop_last() == head);
        assert(ended.last() == sep);
        let none = Seq::<char>::empty();
        assert(pieces(ended, sep) == front.push(none));
        lemma_pieces_append(ended, last, sep);
        assert(front.push(none).drop_last() == front);
        assert(none + last == last);
        assert(parts == front.push(last));
    }
}

/// The pieces of two texts with the separator between them are those of the one
/// and then those of the other.
pub proof fn separated_texts_keep_their_pieces(s: Seq<char>, t: Seq<char>, sep: char)
    ensures
        pieces(s.push(sep) + t, sep) == pieces(s, sep) + pieces(t, sep),
    decreases t.len(),
{
    let all = s.push(sep) + t;
    lemma_split_nonempty(t, only(sep));
    if t.len() == 0 {
        assert(all =~= s.push(sep));
        assert(all.drop_last() =~= s);
        assert(pieces(all, sep) =~= pieces(s, sep) + pieces(t, sep));
    } else {
        let front = t.drop_last();
        separated_texts_keep_their_pieces(s, front, sep);
        lemma_split_nonempty(front, only(sep));
        assert(all.drop_last() =~= s.push(sep) + front);
        assert(all.last() == t.last());
        let before = pieces(s, sep) + pieces(front, sep);
        assert(before.drop_last() =~= pieces(s, sep) + pieces(front, sep).drop_last());
        assert(before.last() == pieces(front, sep).last());
        assert(pieces(all, sep) =~= pieces(s, sep) + pieces(t, sep));
    }
}

/// No comma stands in the decimal notation of a number.
pub proof fn decimal_has_no_comma(n: int)
    ensures
        lacks(signed_decimal(n), ','),
{
    let m = if n < 0 {
        (-n) as nat
    } else {
        n as nat
    };
    decimal_reads_back(m);
    let s = signed_decimal(n);
    assert forall|k: int| 0 <= k < s.len() implies #[trigger] s[k] != ',' by {
        if n < 0 {
            if k > 0 {
                assert(is_digit(decimal(m)[k - 1]));
            }
        } else {
            assert(is_digit(decimal(m)[k]));
        }
    }
}

/// A character that is looked for is found where it stands first.
pub proof fn found_character_is_the_first(s: Seq<char>, c: char)
    ensures
        find(s, c) <= s.len(),
        find(s, c) < s.len() ==> s[find(s, c) as int] == c,
        forall|k: int| 0 <= k < find(s, c) ==> #[trigger] s[k] != c,
    decreases s.len(),
{
    if s.len() > 0 && s[0] != c {
        let rest = s.skip(1);
        found_character_is_the_first(rest, c);
        assert forall|k: int| 0 <= k < find(s, c) implies #[trigger] s[k] != c by {
            if k > 0 {
                assert(rest[k - 1] == s[k]);
            }
        }
    }
}

/// Whether every character of `s` is white space.
pub open spec fn all_white(s: Seq<char>) -> bool {
    forall|k: int| 0 <= k < s.len() ==> is_white(#[trigger] s[k])
}

proof fn lemma_trimmed_start(white: Seq<char>, s: Seq<char>)
    requires
        all_white(white),
    ensures
        trimmed_start(white + s) == trimmed_start(s),
    decreases white.len(),
{
    if white.len() == 0 {
        assert(white + s =~= s);
    } else {
        assert(is_white(white[0]));
        assert((white + s).skip(1) =~= white.skip(1) + s);
        lemma_trimmed_start(white.skip(1), s);
    }
}

proof fn lemma_trimmed_end(s: Seq<char>, white: Seq<char>)
    requires
        all_white(white),
    ensures
        trimmed_end(s + white) == trimmed_end(s),
    decreases white.len(),
{
    if white.len() == 0 {
        assert(s + white =~= s);
    } else {
        assert(is_white(white[white.len() - 1]));
        assert((s + white).drop_last() =~= s + white.drop_last());
        lemma_trimmed_end(s, white.drop_last());
    }
}

/// Trimming takes the white space off both ends of a text, and nothing else.
pub proof fn trimming_takes_white_space_alone(before: Seq<char>, s: Seq<char>, after: Seq<char>)
    requires
        all_white(before),
        all_white(after),
        s.len() > 0 ==> !is_white(s[0]) && !is_white(s.last()),
    ensures
        trimmed(before + s + after) == s,
{
    let none = Seq::<char>::empty();
    assert(before + s + after =~= before + (s + after));
    lemma_trimmed_start(before, s + after);
    if s.len() > 0 {
        assert((s + after)[0] == s[0]);
        lemma_trimmed_end(s, after);
    } else {
        assert(s + after =~= after + none);
        lemma_trimmed_start(after, none);
        assert(trimmed_end(none) =~= s);
    }
}

/// White space at the end of a text is taken off, and nothing else.
pub proof fn trimming_the_end_takes_white_space_alone(s: Seq<char>, after: Seq<char>)
    requires
        all_white(after),
        s.len() > 0 ==> !is_white(s.last()),
    ensures
        trimmed_end(s + after) == s,
{
    lemma_trimmed_end(s, after);
}

proof fn lemma_split_across(s: Seq<char>, c: char, t: Seq<char>, is_sep: spec_fn(char) -> bool)
    requires
        is_sep(c),
    ensures
        split_where(s.push(c) + t, is_sep) == split_where(s, is_sep) + split_where(t, is_sep),
    decreases t.len(),
{
    let all = s.push(c) + t;
    lemma_split_nonempty(t, is_sep);
    if t.len() == 0 {
        assert(all =~= s.push(c));
        assert(all.drop_last() =~= s);
        assert(split_where(all, is_sep) =~= split_where(s, is_sep) + split_where(t, is_sep));
    } else {
        let front = t.drop_last();
        lemma_split_across(s, c, front, is_sep);
        lemma_split_nonempty(front, is_sep);
        assert(all.drop_last() =~= s.push(c) + front);
        assert(all.last() == t.last());
        let before = split_where(s, is_sep) + split_where(front, is_sep);
        assert(before.drop_last() =~= split_where(s, is_sep) + split_where(
            front,
            is_sep,
        ).drop_last());
        assert(before.last() == split_where(front, is_sep).last());
        assert(split_where(all, is_sep) =~= split_where(s, is_sep) + split_where(t, is_sep));
    }
}

proof fn lemma_filter_both(a: Seq<Seq<char>>, b: Seq<Seq<char>>)
    ensures
        (a + b).filter(|w: Seq<char>| w.len() > 0) == a.filter(|w: Seq<char>| w.len() > 0)
            + b.filter(|w: Seq<char>| w.len() > 0),
    decreases b.len(),
{
    let kept = |w: Seq<char>| w.len() > 0;
    reveal(Seq::filter);
    if b.len() == 0 {
        assert(a + b =~= a);
        assert(a.filter(kept) + b.filter(kept) =~= a.filter(kept));
    } else {
        lemma_filter_both(a, b.drop_last());
        assert((a + b).drop_last() =~= a + b.drop_last());
        assert((a + b).last() == b.last());
        assert((a + b).filter(kept) =~= a.filter(kept) + b.filter(kept));
    }
}

/// The words of two texts with white space between them are those of the one
/// and then those of the other.
pub proof fn white_space_parts_words(s: Seq<char>, c: char, t: Seq<char>)
    requires
        is_white(c),
    ensures
        words(s.push(c) + t) == words(s) + words(t),
{
    lemma_split_across(s, c, t, white());
    lemma_filter_both(split_where(s, white()), split_where(t, white()));
}

proof fn lemma_unsplit(s: Seq<char>, is_sep: spec_fn(char) -> bool)
    requires
        forall|k: int| 0 <= k < s.len() ==> !is_sep(#[trigger] s[k]),
    ensures
        split_where(s, is_sep) == seq![s],
    decreases s.len(),
{
    if s.len() > 0 {
        let front = s.drop_last();
        assert forall|k: int| 0 <= k < front.len() implies !is_sep(#[trigger] front[k]) by {
            assert(front[k] == s[k]);
        }
        lemma_unsplit(front, is_sep);
        assert(!is_sep(s[s.len() - 1]));
        assert(front.push(s.last()) =~= s);
        assert(split_where(s, is_sep) =~= seq![s]);
    } else {
        assert(s =~= Seq::<char>::empty());
    }
}

/// A text without white space is one word; one that is empty is none.
pub proof fn unbroken_text_is_one_word(s: Seq<char>)
    requires
        forall|k: int| 0 <= k < s.len() ==> !is_white(#[trigger] s[k]),
    ensures
        words(s) == if s.len() > 0 {
            seq![s]
        } else {
            Seq::empty()
        },
{
    lemma_unsplit(s, white());
    let none = Seq::<Seq<char>>::empty();
    lemma_words_push(none, s);
    assert(none.push(s) =~= seq![s]);
    reveal(Seq::filter);
    assert(none.filter(|w: Seq<char>| w.len() > 0) =~= none);
    if s.len() > 0 {
        assert(none.push(s) =~= seq![s]);
    }
}

/// A line feed ends a line: what stands before it is the first line, without a
/// carriage return at its end, and the lines of the rest follow.
pub proof fn line_feed_ends_a_line(s: Seq<char>, t: Seq<char>)
    requires
        lacks(s, '\n'),
    ensures
        lines(s.push('\n') + t) == seq![
            if s.len() > 0 && s.last() == '\r' {
                s.drop_last()
            } else {
                s
            },
        ] + lines(t),
{
    separated_texts_keep_their_pieces(s, t, '\n');
    assert forall|k: int| 0 <= k < s.len() implies !only('\n')(#[trigger] s[k]) by {}
    lemma_unsplit(s, only('\n'));
    lemma_split_nonempty(t, only('\n'));
    let rest = pieces(t, '\n');
    let all = pieces(s.push('\n') + t, '\n');
    assert(all =~= seq![s] + rest);
    assert(all.last() == rest.last());
    assert(all.drop_last() =~= seq![s] + rest.drop_last());
    assert(lines(s.push('\n') + t) =~= seq![without_cr(s)] + lines(t));
}

/// A text without a line feed is one line; one that is empty is none.
pub proof fn text_without_line_feed_is_one_line(s: Seq<char>)
    requires
        lacks(s, '\n'),
    ensures
        lines(s) == if s.len() > 0 {
            seq![s]
        } else {
            Seq::empty()
        },
{
    assert forall|k: int| 0 <= k < s.len() implies !only('\n')(#[trigger] s[k]) by {}
    lemma_unsplit(s, only('\n'));
    let all = pieces(s, '\n');
    assert(all.drop_last() =~= Seq::<Seq<char>>::empty());
    if s.len() > 0 {
        assert(lines(s) =~= seq![s]);
    } else {
        assert(lines(s) =~= Seq::<Seq<char>>::empty());
    }
}

/// Lists of texts that are joined one after the other have one separator
/// between what each of them is joined to; a text alone is what it is joined to.
pub proof fn joining_puts_a_separator_between(
    a: Seq<Seq<char>>,
    b: Seq<Seq<char>>,
    sep: Seq<char>,
    alone: Seq<char>,
)
    requires
        a.len() > 0,
        b.len() > 0,
    ensures
        joined(a + b, sep) == joined(a, sep) + sep + joined(b, sep),
        joined(seq![alone], sep) == alone,
    decreases b.len(),
{
    let all = a + b;
    assert(all.last() == b.last());
    if b.len() == 1 {
        assert(all.drop_last() =~= a);
    } else {
        joining_puts_a_separator_between(a, b.drop_last(), sep, alone);
        assert(all.drop_last() =~= a + b.drop_last());
        assert(joined(all, sep) =~= joined(a, sep) + sep + joined(b, sep));
    }
}

/// The decimal notation of a number has no zero before its other digits.
pub proof fn decimal_has_no_leading_zero(n: nat)
    requires
        n > 0,
    ensures
        decimal(n)[0] != '0',
    decreases n,
{
    if n >= 10 {
        decimal_has_no_leading_zero(n / 10);
        decimal_reads_back(n / 10);
    }
}

/// A text of one digit or more is read as a number, where that is within the
/// bound, whatever zeros or one plus sign stand before it; a text with any other
/// character is none.
pub proof fn digits_are_read_as_their_number(s: Seq<char>, max: nat)
    ensures
        parsed_number(s.insert(0, '0'), max) == (if s.len() == 0 {
            Some(0nat)
        } else if is_digit(s[0]) {
            parsed_number(s, max)
        } else {
            None
        }),
        s.len() > 0 && s[0] != '+' ==> parsed_number(s.insert(0, '+'), max) == parsed_number(s, max),
        (exists|k: int| 0 < k < s.len() && !is_digit(#[trigger] s[k])) ==> parsed_number(s, max)
            is None,
        s.len() == 0 ==> parsed_number(s, max) is None,
{
    let zero = s.insert(0, '0');
    lemma_zero_before(s);
    assert forall|k: int| 0 < k < zero.len() implies #[trigger] zero[k] == s[k - 1] by {}
    if s.len() > 0 {
        if is_digit(s[0]) {
            if all_digits(s) {
                assert(all_digits(zero)) by {
                    assert forall|k: int| 0 <= k < zero.len() implies is_digit(
                        #[trigger] zero[k],
                    ) by {
                        if k > 0 {
                            assert(is_digit(s[k - 1]));
                        }
                    }
                }
            } else {
                let k = choose|k: int| 0 <= k < s.len() && !is_digit(#[trigger] s[k]);
                assert(zero[k + 1] == s[k]);
            }
        } else {
            assert(zero[1] == s[0]);
        }
        assert(s.insert(0, '+').skip(1) =~= s);
    } else {
        assert(all_digits(zero));
        assert(digits_value(s) == 0);
    }
    if exists|k: int| 0 < k < s.len() && !is_digit(#[trigger] s[k]) {
        let k = choose|k: int| 0 < k < s.len() && !is_digit(#[trigger] s[k]);
        if s[0] == '+' {
            assert(s.skip(1)[k - 1] == s[k]);
        }
    }
}

proof fn lemma_zero_before(s: Seq<char>)
    ensures
        digits_value(s.insert(0, '0')) == digits_value(s),
    decreases s.len(),
{
    let zero = s.insert(0, '0');
    if s.len() == 0 {
        assert(zero.drop_last() =~= s);
    } else {
        lemma_zero_before(s.drop_last());
        assert(zero.drop_last() =~= s.drop_last().insert(0, '0'));
    }
}

/// A character that is no white space is left when a text is trimmed.
pub proof fn trimming_keeps_the_rest(s: Seq<char>, k: int) -> (m: int)
    requires
        0 <= k < s.len(),
        !is_white(s[k]),
    ensures
        0 <= m < trimmed(s).len(),
        trimmed(s)[m] == s[k],
{
    let front = lemma_trimmed_start_keeps(s, k);
    lemma_trimmed_end_keeps(trimmed_start(s), front);
    front
}

proof fn lemma_trimmed_start_keeps(s: Seq<char>, k: int) -> (m: int)
    requires
        0 <= k < s.len(),
        !is_white(s[k]),
    ensures
        0 <= m < trimmed_start(s).len(),
        trimmed_start(s)[m] == s[k],
    decreases s.len(),
{
    if is_white(s[0]) {
        lemma_trimmed_start_keeps(s.skip(1), k - 1)
    } else {
        k
    }
}

proof fn lemma_trimmed_end_keeps(s: Seq<char>, k: int)
    requires
        0 <= k < s.len(),
        !is_white(s[k]),
    ensures
        k < trimmed_end(s).len(),
        trimmed_end(s)[k] == s[k],
    decreases s.len(),
{
    if is_white(s.last()) {
        lemma_trimmed_end_keeps(s.drop_last(), k);
    }
}

/// Trimming leaves nothing of a text of white space, and something of any other.
pub proof fn trimming_empties_blank_text_alone(s: Seq<char>)
    ensures
        trimmed(s).len() == 0 <==> all_white(s),
{
    let none = Seq::<char>::empty();
    if all_white(s) {
        trimming_takes_white_space_alone(s, none, none);
        assert(s + none + none =~= s);
    } else {
        let k = choose|k: int| 0 <= k < s.len() && !is_white(#[trigger] s[k]);
        let m = trimming_keeps_the_rest(s, k);
    }
}

/// The notation of a number that is not negative is made of digits alone, without a
/// zero before the others; a negative number has a dash before the notation of its
/// opposite.
pub proof fn sign_stands_before_negative_numbers(n: int)
    requires
        n > 0,
    ensures
        all_digits(signed_decimal(n)),
        digits_value(signed_decimal(n)) == n,
        signed_decimal(n)[0] != '0',
        signed_decimal(-n) == seq!['-'] + signed_decimal(n),
        signed_decimal(0) == seq!['0'],
{
    decimal_reads_back(n as nat);
    decimal_has_no_leading_zero(n as nat);
}

/// The notation of a number is read as that number exactly where the number is within
/// the bound.
pub proof fn number_is_read_within_the_bound(n: nat, max: nat)
    ensures
        parsed_number(decimal(n), max) == (if n <= max {
            Some(n)
        } else {
            None
        }),
{
    decimal_reads_back(n);
    assert(is_digit(decimal(n)[0]));
}

/// Each digit counts ten times as much as the one behind it.
pub proof fn digits_count_by_tens(s: Seq<char>, c: char)
    requires
        '0' <= c <= '9',
    ensures
        digits_value(s.push(c)) == 10 * digits_value(s) + (c as u32 - '0' as u32),
        digits_value(Seq::empty()) == 0,
{
    assert(s.push(c).drop_last() =~= s);
}

/// Blanks, tabs, line feeds and carriage returns are white space; letters, digits and
/// punctuation marks of ASCII are not.
pub proof fn white_space_is_not_printed(c: char)
    ensures
        is_white(' ') && is_white('\t') && is_white('\n') && is_white('\r'),
        '!' <= c <= '~' ==> !is_white(c),
{
}

} // verus!
