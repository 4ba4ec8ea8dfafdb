//! What becomes of the text that the chat assistant answers with: plain text
//! in place of markup, and the pages that it cites.
use vstd::prelude::*;

use crate::page_set::{ascending, insert_page};
use crate::text::{
    all_digits, alphabetic, chars_of, copy_range, decimal, decimal_reads_back, digits_value,
    format_i32, is_decimal_digit, is_digit, is_white, lacks, line_feed_ends_a_line, lines,
    lowercase_of, occurs_at, parse_number, parsed_number, part_at, push_text, same_text,
    signed_decimal, split_lines, split_words, starts_with, string_of,
    text_without_line_feed_is_one_line, texts, trim_end, trimmed_end, words,
};

verus! {

// ---------------------------------------------------------------------------
// Markup
// ---------------------------------------------------------------------------

/// Whether a character stays in plain text: stars and backquotes do not.
pub open spec fn is_plain(c: char) -> bool {
    c != '*' && c != '`'
}

/// `s` without its stars and backquotes.
pub open spec fn unmarked(s: Seq<char>) -> Seq<char> {
    s.filter(|c: char| is_plain(c))
}

/// `s` without `prefix` at its start, as often as it stands there.
pub open spec fn without_prefix(s: Seq<char>, prefix: Seq<char>) -> Seq<char>
    decreases s.len(),
{
    if prefix.len() > 0 && occurs_at(s, prefix, 0) {
        without_prefix(s.skip(prefix.len() as int), prefix)
    } else {
        s
    }
}

/// A line without the marks of a heading.
pub open spec fn without_heading(line: Seq<char>) -> Seq<char> {
    without_prefix(without_prefix(without_prefix(line, "### "@), "## "@), "# "@)
}

/// A line with a dash for the star of a list item.
pub open spec fn with_dash(line: Seq<char>) -> Seq<char> {
    if occurs_at(line, "* "@, 0) {
        "- "@ + line.skip(2)
    } else {
        line
    }
}

/// A line of markup as plain text.
pub open spec fn plain_line(line: Seq<char>) -> Seq<char> {
    unmarked(with_dash(without_heading(line)))
}

/// Lines of markup as plain text, each with a line feed behind it.
pub open spec fn plain_lines(list: Seq<Seq<char>>) -> Seq<char>
    decreases list.len(),
{
    if list.len() == 0 {
        Seq::empty()
    } else {
        plain_lines(list.drop_last()) + plain_line(list.last()).push('\n')
    }
}

/// A text of markup as plain text.
pub open spec fn plain_text(input: Seq<char>) -> Seq<char> {
    trimmed_end(plain_lines(lines(input)))
}

proof fn lemma_unmarked_push(s: Seq<char>, c: char)
    ensures
        unmarked(s.push(c)) == if is_plain(c) {
            unmarked(s).push(c)
        } else {
            unmarked(s)
        },
{
    reveal(Seq::filter);
    assert(s.push(c).drop_last() == s);
}

/// `s` without its stars and backquotes.
fn unmark(s: &Vec<char>) -> (v: Vec<char>)
    ensures
        v@ == unmarked(s@),
{
    let mut v: Vec<char> = Vec::new();
    let mut i: usize = 0;
    proof {
        reveal(Seq::filter);
        assert(unmarked(s@.take(0)) == Seq::<char>::empty());
    }
    while i < s.len()
        invariant
            i <= s@.len(),
            v@ == unmarked(s@.take(i as int)),
        decreases s@.len() - i,
    {
        let c: char = s[i];
        proof {
            lemma_unmarked_push(s@.take(i as int), c);
            assert(s@.take(i + 1) == s@.take(i as int).push(c));
        }
        if c != '*' && c != '`' {
            v.push(c);
        }
        i = i + 1;
    }
    assert(s@.take(s@.len() as int) == s@);
    v
}

/// `s` without its stars and backquotes.
pub fn remove_inline_markers(s: &str) -> (r: String)
    ensures
        r@ == unmarked(s@),
{
    string_of(&unmark(&chars_of(s)))
}

proof fn lemma_occurs_behind(s: Seq<char>, p: Seq<char>, from: int)
    requires
        0 <= from <= s.len(),
    ensures
        occurs_at(s.skip(from), p, 0) <==> occurs_at(s, p, from),
{
    if from + p.len() <= s.len() {
        assert(s.skip(from).subrange(0, p.len() as int) == s.subrange(from, from + p.len()));
    }
}

fn strip_prefix_all(s: &Vec<char>, prefix: &Vec<char>) -> (v: Vec<char>)
    requires
        prefix@.len() > 0,
    ensures
        v@ == without_prefix(s@, prefix@),
{
    let n: usize = s.len();
    let mut from: usize = 0;
    assert(s@.skip(0) == s@);
    proof {
        lemma_occurs_behind(s@, prefix@, 0);
    }
    while part_at(s, prefix, from)
        invariant
            from <= n == s@.len(),
            prefix@.len() > 0,
            without_prefix(s@, prefix@) == without_prefix(s@.skip(from as int), prefix@),
            occurs_at(s@.skip(from as int), prefix@, 0) <==> occurs_at(s@, prefix@, from as int),
        decreases s@.len() - from,
    {
        from = from + prefix.len();
        assert(s@.skip(from - prefix@.len()).skip(prefix@.len() as int) == s@.skip(from as int));
        proof {
            lemma_occurs_behind(s@, prefix@, from as int);
        }
    }
    let v = copy_range(s, from, s.len());
    assert(v@ == s@.skip(from as int));
    v
}

fn strip_line(line: &Vec<char>) -> (v: Vec<char>)
    ensures
        v@ == plain_line(line@),
{
    proof {
        reveal_strlit("### ");
        reveal_strlit("## ");
        reveal_strlit("# ");
        reveal_strlit("* ");
    }
    let bare = strip_prefix_all(line, &chars_of("### "));
    let bare = strip_prefix_all(&bare, &chars_of("## "));
    let bare = strip_prefix_all(&bare, &chars_of("# "));
    let star = chars_of("* ");
    if starts_with(&bare, &star) {
        let mut dashed = chars_of("- ");
        let rest = copy_range(&bare, 2, bare.len());
        assert(rest@ == bare@.skip(2));
        push_text(&mut dashed, &rest);
        unmark(&dashed)
    } else {
        unmark(&bare)
    }
}

/// A text of markup as plain text: without the marks of headings, with dashes
/// for the stars of list items, without other stars and backquotes, and
/// without white space at the end.
pub fn strip_markdown(input: &str) -> (r: String)
    ensures
        r@ == plain_text(input@),
{
    let list = split_lines(&chars_of(input));
    let mut out: Vec<char> = Vec::new();
    let mut i: usize = 0;
    let ghost all = texts(list@);
    while i < list.len()
        invariant
            i <= list@.len(),
            all == texts(list@),
            out@ == plain_lines(all.take(i as int)),
        decreases list@.len() - i,
    {
        let mut line = strip_line(&list[i]);
        line.push('\n');
        push_text(&mut out, &line);
        assert(all.take(i + 1).drop_last() == all.take(i as int));
        assert(all.take(i + 1).last() == list@[i as int]@);
        i = i + 1;
    }
    assert(all.take(all.len() as int) == all);
    string_of(&trim_end(&out))
}

/// Whether every character of `s` stays in plain text.
pub open spec fn all_plain(s: Seq<char>) -> bool {
    forall|i: int| 0 <= i < s.len() ==> is_plain(#[trigger] s[i])
}

proof fn lemma_unmarked_plain(s: Seq<char>)
    ensures
        all_plain(unmarked(s)),
    decreases s.len(),
{
    reveal(Seq::filter);
    if s.len() > 0 {
        lemma_unmarked_plain(s.drop_last());
    }
}

proof fn lemma_lines_plain(list: Seq<Seq<char>>)
    ensures
        all_plain(plain_lines(list)),
    decreases list.len(),
{
    if list.len() > 0 {
        lemma_lines_plain(list.drop_last());
        lemma_unmarked_plain(with_dash(without_heading(list.last())));
        let a = plain_lines(list.drop_last());
        let b = plain_line(list.last());
        assert forall|i: int| 0 <= i < plain_lines(list).len() implies is_plain(
            #[trigger] plain_lines(list)[i],
        ) by {
            if i < a.len() {
                assert(is_plain(a[i]));
            } else if i < a.len() + b.len() {
                assert(is_plain(b[i - a.len()]));
            }
        }
    }
}

proof fn lemma_trimmed_end_plain(s: Seq<char>)
    requires
        all_plain(s),
    ensures
        all_plain(trimmed_end(s)),
    decreases s.len(),
{
    if s.len() > 0 {
        assert(all_plain(s.drop_last()));
        lemma_trimmed_end_plain(s.drop_last());
    }
}

/// No star and no backquote is left in plain text.
pub proof fn plain_text_has_no_marks(input: Seq<char>)
    ensures
        all_plain(plain_text(input)),
{
    lemma_lines_plain(lines(input));
    lemma_trimmed_end_plain(plain_lines(lines(input)));
}

/// Taking stars and backquotes out a second time changes nothing.
pub proof fn unmarking_twice_is_unmarking_once(s: Seq<char>)
    ensures
        unmarked(unmarked(s)) == unmarked(s),
{
    lemma_unmarked_plain(s);
    lemma_plain_unmarked(unmarked(s));
}

proof fn lemma_plain_unmarked(s: Seq<char>)
    requires
        all_plain(s),
    ensures
        unmarked(s) == s,
    decreases s.len(),
{
    reveal(Seq::filter);
    if s.len() > 0 {
        assert(is_plain(s[s.len() - 1]));
        assert(all_plain(s.drop_last()));
        lemma_plain_unmarked(s.drop_last());
        assert(s == s.drop_last().push(s.last()));
    }
}

// ---------------------------------------------------------------------------
// Cited pages
// ---------------------------------------------------------------------------

/// Whether a character belongs to a word that may name a page.
pub open spec fn in_word(c: char) -> bool {
    alphabetic(c) || c == '.'
}

/// `s` without what stands before its first letter or full stop.
pub open spec fn core_start(s: Seq<char>) -> Seq<char>
    decreases s.len(),
{
    if s.len() > 0 && !in_word(s[0]) {
        core_start(s.skip(1))
    } else {
        s
    }
}

/// `s` without what stands behind its last letter or full stop.
pub open spec fn core_end(s: Seq<char>) -> Seq<char>
    decreases s.len(),
{
    if s.len() > 0 && !in_word(s.last()) {
        core_end(s.drop_last())
    } else {
        s
    }
}

/// Whether a word in lower case announces a page number.
pub open spec fn announces_page(lower: Seq<char>) -> bool {
    let core = core_end(core_start(lower));
    core == "page"@ || core == "pages"@ || core == "p."@
}

/// The decimal digits that `s` starts with.
pub open spec fn leading_digits(s: Seq<char>) -> Seq<char>
    decreases s.len(),
{
    if s.len() > 0 && is_digit(s[0]) {
        seq![s[0]] + leading_digits(s.skip(1))
    } else {
        Seq::empty()
    }
}

/// The page number that a word starts with, where it does.
pub open spec fn page_number(word: Seq<char>) -> Option<nat> {
    match parsed_number(leading_digits(word), i32::MAX as nat) {
        Some(n) => if 0 < n < 10_000 {
            Some(n)
        } else {
            None
        },
        None => None,
    }
}

/// Whether `list` cites the page `n`: a word that announces a page number and
/// the number right behind it.
pub open spec fn cites(list: Seq<Seq<char>>, n: int) -> bool {
    exists|i: int|
        0 <= i < list.len() - 1 && announces_page(lowercase_of(#[trigger] list[i])) && page_number(
            list[i + 1],
        ) == Some(n as nat) && n >= 0
}

fn trim_core(s: &Vec<char>) -> (v: Vec<char>)
    ensures
        v@ == core_end(core_start(s@)),
{
    let mut i: usize = 0;
    assert(s@.skip(0) == s@);
    while i < s.len() && !s[i].is_alphabetic() && s[i] != '.'
        invariant
            i <= s@.len(),
            core_start(s@) == core_start(s@.skip(i as int)),
        decreases s@.len() - i,
    {
        assert(s@.skip(i as int).skip(1) == s@.skip(i + 1));
        i = i + 1;
    }
    let ghost front = s@.skip(i as int);
    assert(core_start(s@) == front);
    let mut n: usize = s.len();
    assert(front.take(front.len() as int) == front);
    while n > i && !s[n - 1].is_alphabetic() && s[n - 1] != '.'
        invariant
            i <= n <= s@.len(),
            front == s@.skip(i as int),
            core_end(front) == core_end(front.take(n - i)),
        decreases n,
    {
        assert(front.take(n - i).drop_last() == front.take(n - i - 1));
        n = n - 1;
    }
    let v = copy_range(s, i, n);
    assert(v@ == front.take(n - i));
    v
}

/// Whether a word in lower case announces a page number.
pub fn is_page_word(lower: &str) -> (r: bool)
    ensures
        r == announces_page(lower@),
{
    let core = trim_core(&chars_of(lower));
    same_text(&core, &chars_of("page")) || same_text(&core, &chars_of("pages")) || same_text(
        &core,
        &chars_of("p."),
    )
}

/// The page number that a word starts with, where it does.
fn read_page_number(word: &Vec<char>) -> (r: Option<u32>)
    ensures
        match page_number(word@) {
            Some(n) => r == Some(n as u32) && n < 10_000,
            None => r is None,
        },
{
    let mut n: usize = 0;
    assert(word@.skip(0) == word@);
    assert(word@.take(0) + leading_digits(word@) == leading_digits(word@));
    while n < word.len() && is_decimal_digit(word[n])
        invariant
            n <= word@.len(),
            leading_digits(word@) == word@.take(n as int) + leading_digits(word@.skip(n as int)),
        decreases word@.len() - n,
    {
        assert(word@.skip(n as int).skip(1) == word@.skip(n + 1));
        assert(word@.take(n as int) + (seq![word@[n as int]] + leading_digits(word@.skip(n + 1)))
            == word@.take(n + 1) + leading_digits(word@.skip(n + 1)));
        n = n + 1;
    }
    let digits = copy_range(word, 0, n);
    assert(digits@ == leading_digits(word@));
    match parse_number(&digits, 0x7fff_ffff) {
        Some(value) => if value > 0 && value < 10_000 {
            Some(value)
        } else {
            None
        },
        None => None,
    }
}

/// The pages that a text cites, in ascending order and each once.
pub fn parse_page_citations(text: &str) -> (v: Vec<i32>)
    ensures
        forall|i: int, j: int| 0 <= i < j < v@.len() ==> v@[i] < v@[j],
        forall|n: i32| #[trigger] v@.contains(n) <==> cites(words(text@), n as int),
        forall|i: int| 0 <= i < v@.len() ==> 0 < #[trigger] v@[i] < 10_000,
{
    let list = split_words(&chars_of(text));
    let ghost all = texts(list@);
    let mut found: Vec<u32> = Vec::new();
    let mut i: usize = 0;
    while i < list.len()
        invariant
            i <= list@.len(),
            all == texts(list@),
            ascending(found@),
            forall|n: u32| #[trigger]
                found@.contains(n) <==> (exists|k: int|
                    0 <= k < i && k < all.len() - 1 && announces_page(
                        lowercase_of(#[trigger] all[k]),
                    ) && page_number(all[k + 1]) == Some(n as nat)),
            forall|k: int| 0 <= k < found@.len() ==> 0 < #[trigger] found@[k] < 10_000,
        decreases list@.len() - i,
    {
        let word = string_of(&list[i]);
        assert(all[i as int] == list@[i as int]@);
        let lower = word.as_str().to_lowercase();
        let ghost before = found@;
        let mut cited: Option<u32> = None;
        if is_page_word(lower.as_str()) {
            if i + 1 < list.len() {
                assert(all[i + 1] == list@[i + 1]@);
                cited = read_page_number(&list[i + 1]);
            }
        }
        if let Some(n) = cited {
            insert_page(&mut found, n);
            assert forall|k: int| 0 <= k < found@.len() implies 0 < #[trigger] found@[k]
                < 10_000 by {
                assert(found@.contains(found@[k]));
                if found@[k] != n {
                    assert(before.contains(found@[k]));
                    assert(before[before.index_of(found@[k])] == found@[k]);
                }
            }
        }
        assert forall|n: u32| #[trigger] found@.contains(n) <==> (exists|k: int|
            0 <= k < i + 1 && k < all.len() - 1 && announces_page(lowercase_of(#[trigger] all[k]))
                && page_number(all[k + 1]) == Some(n as nat)) by {
            if cited == Some(n) {
                assert(announces_page(lowercase_of(all[i as int])));
            }
            if before.contains(n) {
                let k = choose|k: int|
                    0 <= k < i && k < all.len() - 1 && announces_page(
                        lowercase_of(#[trigger] all[k]),
                    ) && page_number(all[k + 1]) == Some(n as nat);
                assert(announces_page(lowercase_of(all[k])));
            }
            if exists|k: int|
                0 <= k < i + 1 && k < all.len() - 1 && announces_page(
                    lowercase_of(#[trigger] all[k]),
                ) && page_number(all[k + 1]) == Some(n as nat) {
                let k = choose|k: int|
                    0 <= k < i + 1 && k < all.len() - 1 && announces_page(
                        lowercase_of(#[trigger] all[k]),
                    ) && page_number(all[k + 1]) == Some(n as nat);
                if k < i {
                    assert(announces_page(lowercase_of(all[k])));
                    assert(before.contains(n));
                }
            }
        }
        i = i + 1;
    }
    let mut v: Vec<i32> = Vec::new();
    let mut k: usize = 0;
    while k < found.len()
        invariant
            k <= found@.len(),
            v@.len() == k,
            forall|m: int| 0 <= m < found@.len() ==> 0 < #[trigger] found@[m] < 10_000,
            forall|m: int| 0 <= m < k ==> #[trigger] v@[m] == found@[m],
        decreases found@.len() - k,
    {
        v.push(found[k] as i32);
        k = k + 1;
    }
    proof {
        assert forall|n: i32| #[trigger] v@.contains(n) <==> cites(words(text@), n as int) by {
            if v@.contains(n) {
                let m = v@.index_of(n);
                assert(found@.contains(found@[m]));
                let c = choose|c: int|
                    0 <= c < all.len() && c < all.len() - 1 && announces_page(
                        lowercase_of(#[trigger] all[c]),
                    ) && page_number(all[c + 1]) == Some(found@[m] as nat);
                assert(announces_page(lowercase_of(all[c])));
            }
            if cites(words(text@), n as int) {
                let c = choose|c: int|
                    0 <= c < all.len() - 1 && announces_page(lowercase_of(#[trigger] all[c]))
                        && page_number(all[c + 1]) == Some(n as nat) && n >= 0;
                assert(announces_page(lowercase_of(all[c])));
                assert(found@.contains(n as u32));
                let m = found@.index_of(n as u32);
                assert(v@[m] == n);
            }
        }
    }
    v
}

/// The pages of `pages` that a document of `n_pages` pages has, in order.
pub open spec fn reachable(pages: Seq<i32>, n_pages: i32) -> Seq<i32> {
    pages.filter(|p: i32| 1 <= p <= n_pages)
}

/// The pages of `pages` that a document of `n_pages` pages has: those that a
/// finished answer offers to go to.
pub fn reachable_pages(pages: &Vec<i32>, n_pages: i32) -> (v: Vec<i32>)
    ensures
        v@ == reachable(pages@, n_pages),
{
    let mut v: Vec<i32> = Vec::new();
    let mut i: usize = 0;
    proof {
        reveal(Seq::filter);
        assert(reachable(pages@.take(0), n_pages) == Seq::<i32>::empty());
    }
    while i < pages.len()
        invariant
            i <= pages@.len(),
            v@ == reachable(pages@.take(i as int), n_pages),
        decreases pages@.len() - i,
    {
        proof {
            reveal(Seq::filter);
            assert(pages@.take(i + 1).drop_last() == pages@.take(i as int));
        }
        let page: i32 = pages[i];
        if !(page < 1 || page > n_pages) {
            v.push(page);
        }
        i = i + 1;
    }
    assert(pages@.take(pages@.len() as int) == pages@);
    v
}

/// What the button that goes to a cited page says.
pub fn citation_label(page: i32) -> (s: String)
    ensures
        s@ == "Go to page "@ + signed_decimal(page as int),
{
    let mut v = chars_of("Go to page ");
    push_text(&mut v, &format_i32(page));
    string_of(&v)
}

// ---------------------------------------------------------------------------
// Laws
// ---------------------------------------------------------------------------

/// Taking marks out of a text takes them out of each of its parts; of one character
/// it leaves that character, unless it is a star or a backquote.
pub proof fn unmarking_goes_character_by_character(a: Seq<char>, b: Seq<char>, c: char)
    ensures
        unmarked(a + b) == unmarked(a) + unmarked(b),
        unmarked(seq![c]) == if c == '*' || c == '`' {
            Seq::<char>::empty()
        } else {
            seq![c]
        },
    decreases b.len(),
{
    let none = Seq::<char>::empty();
    assert(seq![c] =~= none.push(c));
    lemma_unmarked_push(none, c);
    lemma_plain_unmarked(none);
    assert(none.push(c) =~= seq![c]);
    if b.len() == 0 {
        assert(a + b =~= a);
        assert(b =~= none);
        assert(unmarked(a) + none =~= unmarked(a));
    } else {
        let front = b.drop_last();
        unmarking_goes_character_by_character(a, front, c);
        assert(a + b =~= (a + front).push(b.last()));
        assert(b =~= front.push(b.last()));
        lemma_unmarked_push(a + front, b.last());
        lemma_unmarked_push(front, b.last());
        assert(unmarked(a + b) =~= unmarked(a) + unmarked(b));
    }
}

proof fn lemma_no_prefix(s: Seq<char>, prefix: Seq<char>)
    requires
        prefix.len() > 0,
        s.len() == 0 || s[0] != prefix[0],
    ensures
        without_prefix(s, prefix) == s,
{
    if occurs_at(s, prefix, 0) {
        assert(s.subrange(0, prefix.len() as int)[0] == prefix[0]);
    }
}

proof fn lemma_one_prefix(prefix: Seq<char>, s: Seq<char>)
    requires
        prefix.len() > 0,
        s.len() == 0 || s[0] != prefix[0],
    ensures
        without_prefix(prefix + s, prefix) == s,
{
    let all = prefix + s;
    assert(all.subrange(0, prefix.len() as int) =~= prefix);
    assert(all.skip(prefix.len() as int) =~= s);
    lemma_no_prefix(s, prefix);
}

proof fn lemma_other_prefix(s: Seq<char>, prefix: Seq<char>, k: int)
    requires
        0 <= k < prefix.len(),
        k < s.len() ==> s[k] != prefix[k],
    ensures
        without_prefix(s, prefix) == s,
{
    if occurs_at(s, prefix, 0) {
        assert(s.subrange(0, prefix.len() as int)[k] == prefix[k]);
    }
}

/// A line that does not start with the mark of a heading or of a list item loses its
/// stars and backquotes and nothing else. The mark of a heading, of whatever depth,
/// falls away before such a line, and the star of a list item becomes a dash.
pub proof fn marks_of_a_line_fall_away(line: Seq<char>)
    requires
        line.len() == 0 || line[0] != '#',
    ensures
        !(line.len() >= 2 && line[0] == '*' && line[1] == ' ') ==> plain_line(line) == unmarked(
            line,
        ),
        plain_line("* "@ + line) == "- "@ + unmarked(line),
        plain_line("# "@ + line) == plain_line(line),
        plain_line("## "@ + line) == plain_line(line),
        plain_line("### "@ + line) == plain_line(line),
{
    reveal_strlit("### ");
    reveal_strlit("## ");
    reveal_strlit("# ");
    reveal_strlit("* ");
    reveal_strlit("- ");
    let item = "* "@ + line;
    let one = "# "@ + line;
    let two = "## "@ + line;
    let three = "### "@ + line;
    lemma_no_prefix(line, "### "@);
    lemma_no_prefix(line, "## "@);
    lemma_no_prefix(line, "# "@);
    assert(without_heading(line) == line);
    if !(line.len() >= 2 && line[0] == '*' && line[1] == ' ') {
        if occurs_at(line, "* "@, 0) {
            assert(line.subrange(0, 2)[0] == '*' && line.subrange(0, 2)[1] == ' ');
        }
    }
    lemma_no_prefix(item, "### "@);
    lemma_no_prefix(item, "## "@);
    lemma_no_prefix(item, "# "@);
    assert(item.subrange(0, 2) =~= "* "@);
    assert(item.skip(2) =~= line);
    unmarking_goes_character_by_character("- "@, line, ' ');
    lemma_plain_unmarked("- "@);
    lemma_other_prefix(one, "### "@, 1);
    lemma_other_prefix(one, "## "@, 1);
    lemma_one_prefix("# "@, line);
    lemma_other_prefix(two, "### "@, 2);
    lemma_one_prefix("## "@, line);
    lemma_one_prefix("### "@, line);
}

proof fn lemma_plain_lines_front(first: Seq<char>, rest: Seq<Seq<char>>)
    ensures
        plain_lines(seq![first] + rest) == plain_line(first).push('\n') + plain_lines(rest),
    decreases rest.len(),
{
    let all = seq![first] + rest;
    let none = Seq::<Seq<char>>::empty();
    if rest.len() == 0 {
        assert(all =~= none.push(first));
        assert(all.drop_last() =~= none);
        assert(all.last() == first);
        assert(plain_lines(none) =~= Seq::<char>::empty());
        assert(plain_lines(all) =~= plain_line(first).push('\n') + plain_lines(rest));
    } else {
        lemma_plain_lines_front(first, rest.drop_last());
        assert(all.drop_last() =~= seq![first] + rest.drop_last());
        assert(all.last() == rest.last());
        assert(plain_lines(all) =~= plain_line(first).push('\n') + plain_lines(rest));
    }
}

proof fn lemma_trimmed_end_of_both(a: Seq<char>, b: Seq<char>)
    ensures
        trimmed_end(a + b) == if trimmed_end(b).len() > 0 {
            a + trimmed_end(b)
        } else {
            trimmed_end(a)
        },
    decreases b.len(),
{
    if b.len() == 0 {
        assert(a + b =~= a);
    } else if is_white(b.last()) {
        lemma_trimmed_end_of_both(a, b.drop_last());
        assert((a + b).drop_last() =~= a + b.drop_last());
        assert((a + b).last() == b.last());
    } else {
        assert((a + b).last() == b.last());
    }
}

/// Markup becomes plain text line by line: the first line, without a carriage return
/// at its end, becomes a plain line, and behind its line feed stands the plain text of
/// what follows, where there is any; white space at the end falls away.
pub proof fn plain_text_goes_line_by_line(line: Seq<char>, rest: Seq<char>)
    requires
        lacks(line, '\n'),
    ensures
        plain_text(line) == trimmed_end(plain_line(line)),
        plain_text(line.push('\n') + rest) == ({
            let first = plain_line(
                if line.len() > 0 && line.last() == '\r' {
                    line.drop_last()
                } else {
                    line
                },
            );
            if plain_text(rest).len() > 0 {
                first.push('\n') + plain_text(rest)
            } else {
                trimmed_end(first)
            }
        }),
{
    let none = Seq::<Seq<char>>::empty();
    text_without_line_feed_is_one_line(line);
    line_feed_ends_a_line(line, rest);
    if line.len() > 0 {
        lemma_plain_lines_front(line, none);
        assert(seq![line] + none =~= seq![line]);
        assert(plain_lines(none) =~= Seq::<char>::empty());
        assert(plain_line(line).push('\n') + plain_lines(none) =~= plain_line(line).push('\n'));
        assert(plain_line(line).push('\n').drop_last() =~= plain_line(line));
    } else {
        marks_of_a_line_fall_away(line);
        lemma_plain_unmarked(line);
        assert(lines(line) =~= none);
        assert(line =~= Seq::<char>::empty());
    }
    let bare = if line.len() > 0 && line.last() == '\r' {
        line.drop_last()
    } else {
        line
    };
    let first = plain_line(bare);
    lemma_plain_lines_front(bare, lines(rest));
    lemma_trimmed_end_of_both(first.push('\n'), plain_lines(lines(rest)));
    assert(first.push('\n').drop_last() =~= first);
}

proof fn lemma_core_start(before: Seq<char>, s: Seq<char>)
    requires
        forall|k: int| 0 <= k < before.len() ==> !in_word(#[trigger] before[k]),
        s.len() > 0,
        in_word(s[0]),
    ensures
        core_start(before + s) == s,
    decreases before.len(),
{
    let all = before + s;
    if before.len() == 0 {
        assert(all =~= s);
    } else {
        assert(!in_word(before[0]));
        assert(all.skip(1) =~= before.skip(1) + s);
        lemma_core_start(before.skip(1), s);
    }
}

proof fn lemma_core_end(s: Seq<char>, after: Seq<char>)
    requires
        forall|k: int| 0 <= k < after.len() ==> !in_word(#[trigger] after[k]),
        s.len() > 0,
        in_word(s.last()),
    ensures
        core_end(s + after) == s,
    decreases after.len(),
{
    let all = s + after;
    if after.len() == 0 {
        assert(all =~= s);
    } else {
        assert(!in_word(after[after.len() - 1]));
        assert(all.drop_last() =~= s + after.drop_last());
        lemma_core_end(s, after.drop_last());
    }
}

/// A word in lower case announces a page number where it is `page`, `pages` or `p.`,
/// whatever stands round it that is no letter and no full stop.
pub proof fn page_word_may_stand_in_brackets(before: Seq<char>, core: Seq<char>, after: Seq<char>)
    requires
        core == "page"@ || core == "pages"@ || core == "p."@,
        forall|k: int| 0 <= k < before.len() ==> !alphabetic(#[trigger] before[k]) && before[k] != '.',
        forall|k: int| 0 <= k < after.len() ==> !alphabetic(#[trigger] after[k]) && after[k] != '.',
    ensures
        alphabetic('p') && alphabetic('e') && alphabetic('s') ==> announces_page(
            before + core + after,
        ),
{
    reveal_strlit("page");
    reveal_strlit("pages");
    reveal_strlit("p.");
    if alphabetic('p') && alphabetic('e') && alphabetic('s') {
        assert(core[0] == 'p');
        assert(in_word(core.last()));
        assert forall|k: int| 0 <= k < before.len() implies !in_word(#[trigger] before[k]) by {}
        assert forall|k: int| 0 <= k < after.len() implies !in_word(#[trigger] after[k]) by {}
        assert(before + core + after =~= before + (core + after));
        lemma_core_start(before, core + after);
        lemma_core_end(core, after);
    }
}

proof fn lemma_core_start_split(s: Seq<char>) -> (k: int)
    ensures
        0 <= k <= s.len(),
        core_start(s) == s.skip(k),
        forall|i: int| 0 <= i < k ==> !in_word(#[trigger] s[i]),
    decreases s.len(),
{
    if s.len() > 0 && !in_word(s[0]) {
        let rest = s.skip(1);
        let k = lemma_core_start_split(rest);
        assert(rest.skip(k) =~= s.skip(k + 1));
        assert forall|i: int| 0 <= i < k + 1 implies !in_word(#[trigger] s[i]) by {
            if i > 0 {
                assert(rest[i - 1] == s[i]);
            }
        }
        k + 1
    } else {
        assert(s.skip(0) =~= s);
        0
    }
}

proof fn lemma_core_end_split(s: Seq<char>) -> (k: int)
    ensures
        0 <= k <= s.len(),
        core_end(s) == s.take(k),
        forall|i: int| k <= i < s.len() ==> !in_word(#[trigger] s[i]),
    decreases s.len(),
{
    if s.len() > 0 && !in_word(s.last()) {
        let front = s.drop_last();
        let k = lemma_core_end_split(front);
        assert(front.take(k) =~= s.take(k));
        assert forall|i: int| k <= i < s.len() implies !in_word(#[trigger] s[i]) by {
            if i < front.len() {
                assert(front[i] == s[i]);
            }
        }
        k
    } else {
        assert(s.take(s.len() as int) =~= s);
        s.len() as int
    }
}

/// No other word announces a page number: one that does is `page`, `pages` or `p.`
/// from position `from` on and before position `to`, and nothing round that is a
/// letter or a full stop.
pub proof fn only_page_words_announce_pages(lower: Seq<char>) -> (r: (int, int))
    requires
        announces_page(lower),
    ensures
        ({
            let (from, to) = r;
            &&& 0 <= from <= to <= lower.len()
            &&& lower.subrange(from, to) == "page"@ || lower.subrange(from, to) == "pages"@
                || lower.subrange(from, to) == "p."@
            &&& forall|k: int|
                0 <= k < lower.len() && !(from <= k < to) ==> !alphabetic(#[trigger] lower[k])
                    && lower[k] != '.'
        }),
{
    let from = lemma_core_start_split(lower);
    let front = lower.skip(from);
    let n = lemma_core_end_split(front);
    assert(front.take(n) =~= lower.subrange(from, from + n));
    assert forall|k: int| 0 <= k < lower.len() && !(from <= k < from + n) implies !alphabetic(
        #[trigger] lower[k],
    ) && lower[k] != '.' by {
        if k >= from {
            assert(front[k - from] == lower[k]);
            assert(!in_word(front[k - from]));
        } else {
            assert(!in_word(lower[k]));
        }
    }
    (from, from + n)
}

proof fn lemma_leading_digits(digits: Seq<char>, rest: Seq<char>)
    requires
        all_digits(digits),
        rest.len() == 0 || !is_digit(rest[0]),
    ensures
        leading_digits(digits + rest) == digits,
    decreases digits.len(),
{
    let all = digits + rest;
    if digits.len() == 0 {
        assert(all =~= rest);
        assert(leading_digits(all) =~= digits);
    } else {
        let next = digits.skip(1);
        assert(is_digit(digits[0]));
        assert(all_digits(next)) by {
            assert forall|k: int| 0 <= k < next.len() implies is_digit(#[trigger] next[k]) by {
                assert(next[k] == digits[k + 1]);
            }
        }
        assert(all.skip(1) =~= next + rest);
        lemma_leading_digits(next, rest);
        assert(leading_digits(all) =~= digits);
    }
}

/// The number of a cited page is the one that the digits write with which the word
/// behind the announcement starts, whatever follows them. A word that does not start
/// with a digit, zero and numbers from ten thousand on are no pages.
pub proof fn cited_number_is_what_the_digits_write(digits: Seq<char>, rest: Seq<char>, n: nat)
    requires
        all_digits(digits),
        rest.len() == 0 || !is_digit(rest[0]),
    ensures
        digits.len() == 0 ==> page_number(digits + rest) is None,
        digits.len() > 0 ==> page_number(digits + rest) == (if 1 <= digits_value(digits) <= 9_999 {
            Some(digits_value(digits))
        } else {
            None
        }),
        page_number(decimal(n) + rest) == (if 1 <= n <= 9_999 {
            Some(n)
        } else {
            None
        }),
{
    lemma_leading_digits(digits, rest);
    if digits.len() > 0 {
        assert(is_digit(digits[0]));
    }
    decimal_reads_back(n);
    lemma_leading_digits(decimal(n), rest);
    assert(is_digit(decimal(n)[0]));
}

/// A page is cited where a word that announces a page number stands right before a
/// word that starts with the page's number, anywhere in the text, whatever stands
/// before and behind the two.
pub proof fn citation_counts_wherever_it_stands(
    before: Seq<Seq<char>>,
    word: Seq<char>,
    number: Seq<char>,
    after: Seq<Seq<char>>,
    n: nat,
)
    requires
        announces_page(lowercase_of(word)),
        page_number(number) == Some(n),
    ensures
        cites(before + seq![word, number] + after, n as int),
{
    let list = before + seq![word, number] + after;
    let i = before.len() as int;
    assert(list[i] == word);
    assert(list[i + 1] == number);
}

/// A page that a text cites is named by some word and announced by the word before.
pub proof fn citation_has_its_words(list: Seq<Seq<char>>, n: int) -> (i: int)
    requires
        cites(list, n),
    ensures
        0 <= i < list.len() - 1,
        announces_page(lowercase_of(list[i])),
        page_number(list[i + 1]) == Some(n as nat),
        1 <= n <= 9_999,
{
    let i = choose|i: int|
        0 <= i < list.len() - 1 && announces_page(lowercase_of(#[trigger] list[i]))
            && page_number(list[i + 1]) == Some(n as nat) && n >= 0;
    i
}

/// Of the cited pages those are offered that the document has, in their order.
pub proof fn reachable_pages_are_taken_one_by_one(
    a: Seq<i32>,
    b: Seq<i32>,
    page: i32,
    n_pages: i32,
)
    ensures
        reachable(a + b, n_pages) == reachable(a, n_pages) + reachable(b, n_pages),
        reachable(seq![page], n_pages) == if 1 <= page <= n_pages {
            seq![page]
        } else {
            Seq::<i32>::empty()
        },
    decreases b.len(),
{
    reveal(Seq::filter);
    let none = Seq::<i32>::empty();
    assert(reachable(none, n_pages) =~= none);
    assert(seq![page].drop_last() =~= none);
    assert(seq![page].last() == page);
    assert(none.push(page) =~= seq![page]);
    if b.len() == 0 {
        assert(a + b =~= a);
        assert(b =~= none);
        assert(reachable(a, n_pages) + none =~= reachable(a, n_pages));
    } else {
        reachable_pages_are_taken_one_by_one(a, b.drop_last(), page, n_pages);
        assert((a + b).drop_last() =~= a + b.drop_last());
        assert((a + b).last() == b.last());
        assert(reachable(a + b, n_pages) =~= reachable(a, n_pages) + reachable(b, n_pages));
    }
}

} // verus!
