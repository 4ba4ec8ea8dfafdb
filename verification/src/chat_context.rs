//! Which pages of a document a question to the chat assistant is sent with.
use vstd::prelude::*;

use crate::ordering::{
    ints, positions, precedes, stable_order, stable_order_is_sorted, stable_positions,
};
use crate::text::{
    byte_len, byte_length, chars_of, contains_part, format_i32, has_part, is_white, join, joined,
    lowercase_of, occurs_at, push_text, signed_decimal, split_words, string_of, texts, unbroken_text_is_one_word,
    white_space_parts_words, words,
};

verus! {

/// How many bytes of page text a question is sent with.
pub const MAX_CONTEXT_CHARS: usize = 16_000;

/// A message as a pair of texts: who speaks and what is said.
pub open spec fn messages(history: Seq<(String, String)>) -> Seq<(Seq<char>, Seq<char>)> {
    history.map_values(|m: (String, String)| (m.0@, m.1@))
}

/// A page's number and text as mathematical values.
pub open spec fn pages(chunks: Seq<(i32, String)>) -> Seq<(i32, Seq<char>)> {
    chunks.map_values(|c: (i32, String)| (c.0, c.1@))
}

/// The words of `s` in lower case.
pub open spec fn lower_words(s: Seq<char>) -> Seq<Seq<char>> {
    words(s).map_values(|w: Seq<char>| lowercase_of(w))
}

/// The words of the last `n` messages in lower case, the latest message first.
pub open spec fn recent_words(history: Seq<(Seq<char>, Seq<char>)>, n: nat) -> Seq<Seq<char>>
    decreases n,
{
    if n == 0 || history.len() == 0 {
        Seq::empty()
    } else {
        lower_words(history.last().1) + recent_words(history.drop_last(), (n - 1) as nat)
    }
}

/// Whether a word is long enough to tell pages apart and stands in `haystack`.
pub open spec fn matching(haystack: Seq<char>, word: Seq<char>) -> bool {
    byte_len(word) > 3 && has_part(haystack, word)
}

/// How many of `list` match.
pub open spec fn matches_in(haystack: Seq<char>, list: Seq<Seq<char>>) -> nat
    decreases list.len(),
{
    if list.len() == 0 {
        0
    } else {
        matches_in(haystack, list.drop_last()) + if matching(haystack, list.last()) {
            1nat
        } else {
            0nat
        }
    }
}

/// How often a page speaks of what was asked: how many words of the question
/// and of the last four messages stand in its text, case aside.
pub open spec fn relevance(
    text: Seq<char>,
    query: Seq<char>,
    history: Seq<(Seq<char>, Seq<char>)>,
) -> nat {
    matches_in(lowercase_of(text), lower_words(query) + recent_words(history, 4))
}

/// Appends the words of `s` in lower case.
fn push_lower_words(list: &mut Vec<Vec<char>>, s: &str)
    ensures
        texts(final(list)@) == texts(old(list)@) + lower_words(s@),
{
    let found = split_words(&chars_of(s));
    let ghost start = texts(list@);
    let ghost lower = lower_words(s@);
    let mut i: usize = 0;
    assert(lower.take(0) == Seq::<Seq<char>>::empty());
    assert(texts(list@) == start + lower.take(0));
    while i < found.len()
        invariant
            i <= found@.len(),
            texts(found@) == words(s@),
            lower == lower_words(s@),
            texts(list@) == start + lower.take(i as int),
        decreases found@.len() - i,
    {
        let word = string_of(&found[i]);
        let small = chars_of(word.as_str().to_lowercase().as_str());
        let ghost before = list@;
        assert(texts(found@)[i as int] == found@[i as int]@);
        assert(small@ == lower[i as int]);
        list.push(small);
        assert(texts(list@) == texts(before).push(lower[i as int]));
        assert(lower.take(i + 1) == lower.take(i as int).push(lower[i as int]));
        i = i + 1;
    }
    assert(lower.take(lower.len() as int) == lower);
}

/// How many of `list` match.
pub fn count_matches(haystack: &Vec<char>, list: &Vec<Vec<char>>) -> (n: usize)
    ensures
        n == matches_in(haystack@, texts(list@)),
{
    let ghost all = texts(list@);
    let mut count: usize = 0;
    let mut i: usize = 0;
    while i < list.len()
        invariant
            i <= list@.len(),
            all == texts(list@),
            count == matches_in(haystack@, all.take(i as int)),
            count <= i,
        decreases list@.len() - i,
    {
        assert(all.take(i + 1).drop_last() == all.take(i as int));
        assert(all[i as int] == list@[i as int]@);
        let word = string_of(&list[i]);
        if byte_length(word.as_str()) > 3 && contains_part(haystack, &list[i]) {
            count = count + 1;
        }
        i = i + 1;
    }
    assert(all.take(all.len() as int) == all);
    count
}

/// How often a page speaks of what was asked.
pub fn relevance_score(chunk_text: &str, query: &str, history: &[(String, String)]) -> (n: usize)
    ensures
        n == relevance(chunk_text@, query@, messages(history@)),
{
    let haystack = chars_of(chunk_text.to_lowercase().as_str());
    let mut list: Vec<Vec<char>> = Vec::new();
    push_lower_words(&mut list, query);
    let ghost asked = lower_words(query@);
    let ghost all = messages(history@);
    assert(texts(list@) == asked);
    let mut left: usize = history.len();
    let mut taken: usize = 0;
    let ghost wanted = asked + recent_words(all, 4);
    assert(all.take(all.len() as int) == all);
    while left > 0 && taken < 4
        invariant
            left <= history@.len(),
            taken <= 4,
            all == messages(history@),
            texts(list@) + recent_words(all.take(left as int), (4 - taken) as nat) == wanted,
        decreases left,
    {
        let ghost before = texts(list@);
        push_lower_words(&mut list, history[left - 1].1.as_str());
        proof {
            assert(all.take(left as int).last() == all[left - 1]);
            assert(all.take(left as int).drop_last() == all.take(left - 1));
            assert(texts(list@) + recent_words(all.take(left - 1), (4 - taken - 1) as nat)
                =~= before + recent_words(all.take(left as int), (4 - taken) as nat));
        }
        left = left - 1;
        taken = taken + 1;
    }
    assert(texts(list@) =~= wanted);
    count_matches(&haystack, &list)
}

// ---------------------------------------------------------------------------
// The pages to send
// ---------------------------------------------------------------------------

/// What is added to the relevance of the page that the user is viewing.
pub const CURRENT_PAGE_BONUS: usize = 1000;

/// The relevance of each page.
pub open spec fn relevances(
    chunks: Seq<(i32, Seq<char>)>,
    query: Seq<char>,
    history: Seq<(Seq<char>, Seq<char>)>,
) -> Seq<nat> {
    chunks.map_values(|c: (i32, Seq<char>)| relevance(c.1, query, history))
}

/// By what `chunks` are ranked: the relevance of each, downwards, with the
/// bonus of the current page.
pub open spec fn rank_keys(
    scores: Seq<nat>,
    chunks: Seq<(i32, Seq<char>)>,
    current_page: i32,
) -> Seq<int> {
    Seq::new(
        chunks.len(),
        |i: int|
            -(scores[i] + if chunks[i].0 == current_page {
                CURRENT_PAGE_BONUS as int
            } else {
                0
            }),
    )
}

/// The positions of `chunks`, the most relevant first, where `scores` holds the
/// relevance of each. Pages of equal relevance stand in their order.
pub open spec fn ranking(
    scores: Seq<nat>,
    chunks: Seq<(i32, Seq<char>)>,
    current_page: i32,
) -> Seq<int> {
    stable_order(rank_keys(scores, chunks, current_page), chunks.len())
}

/// The position of the first chunk of the current page, from position `from`
/// on.
pub open spec fn current_chunk(
    chunks: Seq<(i32, Seq<char>)>,
    current_page: i32,
    from: int,
) -> Option<int>
    decreases chunks.len() - from,
{
    if from >= chunks.len() {
        None
    } else if chunks[from].0 == current_page {
        Some(from)
    } else {
        current_chunk(chunks, current_page, from + 1)
    }
}

/// The other pages to send: those of `ranked` in turn, from position `from` on,
/// until one would take the text past the limit, where `total` bytes are taken.
pub open spec fn affordable(
    ranked: Seq<int>,
    chunks: Seq<(i32, Seq<char>)>,
    current_page: i32,
    from: int,
    total: nat,
) -> Seq<int>
    decreases ranked.len() - from,
{
    if from >= ranked.len() {
        Seq::empty()
    } else {
        let p = ranked[from];
        if chunks[p].0 == current_page {
            affordable(ranked, chunks, current_page, from + 1, total)
        } else if total + byte_len(chunks[p].1) > MAX_CONTEXT_CHARS {
            Seq::empty()
        } else {
            seq![p] + affordable(
                ranked,
                chunks,
                current_page,
                from + 1,
                total + byte_len(chunks[p].1),
            )
        }
    }
}

/// The positions of the pages to send: the current page, whatever its length,
/// and then the others that fit.
pub open spec fn selected(
    scores: Seq<nat>,
    chunks: Seq<(i32, Seq<char>)>,
    current_page: i32,
) -> Seq<int> {
    let ranked = ranking(scores, chunks, current_page);
    match current_chunk(chunks, current_page, 0) {
        None => affordable(ranked, chunks, current_page, 0, 0),
        Some(p) => seq![p] + affordable(
            ranked,
            chunks,
            current_page,
            0,
            byte_len(chunks[p].1),
        ),
    }
}

/// The pages to send, by page number.
pub open spec fn by_page(
    chosen: Seq<int>,
    chunks: Seq<(i32, Seq<char>)>,
) -> Seq<(i32, Seq<char>)> {
    stable_order(chosen.map_values(|p: int| chunks[p].0 as int), chosen.len()).map_values(
        |i: int| chunks[chosen[i]],
    )
}

/// A page as it is sent.
pub open spec fn rendered(chunk: (i32, Seq<char>), current_page: i32) -> Seq<char> {
    "=== Page "@ + signed_decimal(chunk.0 as int) + (if chunk.0 == current_page {
        " (CURRENT PAGE — user is viewing this) ===\n"@
    } else {
        " ===\n"@
    }) + chunk.1
}

/// The text that goes with a question, where `scores` holds the relevance of
/// each page.
pub open spec fn context(
    scores: Seq<nat>,
    chunks: Seq<(i32, Seq<char>)>,
    current_page: i32,
) -> Seq<char> {
    joined(
        by_page(selected(scores, chunks, current_page), chunks).map_values(
            |c: (i32, Seq<char>)| rendered(c, current_page),
        ),
        "\n\n"@,
    )
}

/// Scores as mathematical values.
pub open spec fn nats(scores: Seq<usize>) -> Seq<nat> {
    scores.map_values(|s: usize| s as nat)
}

fn rank(scores: &Vec<usize>, chunks: &[(i32, String)], current_page: i32) -> (order: Vec<usize>)
    requires
        scores@.len() == chunks@.len(),
    ensures
        positions(order@) == ranking(nats(scores@), pages(chunks@), current_page),
        forall|i: int| 0 <= i < order@.len() ==> #[trigger] order@[i] < chunks@.len(),
{
    let mut keys: Vec<i128> = Vec::new();
    let ghost wanted = rank_keys(nats(scores@), pages(chunks@), current_page);
    let mut i: usize = 0;
    while i < chunks.len()
        invariant
            i <= chunks@.len(),
            scores@.len() == chunks@.len(),
            wanted == rank_keys(nats(scores@), pages(chunks@), current_page),
            keys@.len() == i,
            forall|k: int| 0 <= k < i ==> #[trigger] keys@[k] == wanted[k],
        decreases chunks@.len() - i,
    {
        let mut key: i128 = -(scores[i] as i128);
        if chunks[i].0 == current_page {
            key = key - CURRENT_PAGE_BONUS as i128;
        }
        keys.push(key);
        i = i + 1;
    }
    assert(ints(keys@) =~= wanted);
    stable_positions(&keys)
}

fn find_current(chunks: &[(i32, String)], current_page: i32) -> (r: Option<usize>)
    ensures
        match current_chunk(pages(chunks@), current_page, 0) {
            None => r is None,
            Some(p) => r == Some(p as usize) && 0 <= p < chunks@.len(),
        },
{
    let mut i: usize = 0;
    while i < chunks.len()
        invariant
            i <= chunks@.len(),
            current_chunk(pages(chunks@), current_page, 0) == current_chunk(
                pages(chunks@),
                current_page,
                i as int,
            ),
        decreases chunks@.len() - i,
    {
        assert(pages(chunks@)[i as int].0 == chunks@[i as int].0);
        if chunks[i].0 == current_page {
            return Some(i);
        }
        i = i + 1;
    }
    None
}

fn select(scores: &Vec<usize>, chunks: &[(i32, String)], current_page: i32) -> (chosen: Vec<usize>)
    requires
        scores@.len() == chunks@.len(),
    ensures
        positions(chosen@) == selected(nats(scores@), pages(chunks@), current_page),
        forall|i: int| 0 <= i < chosen@.len() ==> #[trigger] chosen@[i] < chunks@.len(),
{
    let ranked = rank(scores, chunks, current_page);
    let ghost all = pages(chunks@);
    let ghost order = positions(ranked@);
    let ghost wanted = selected(nats(scores@), all, current_page);
    let mut chosen: Vec<usize> = Vec::new();
    let mut total: usize = 0;
    match find_current(chunks, current_page) {
        Some(p) => {
            chosen.push(p);
            total = byte_length(chunks[p].1.as_str());
            assert(all[p as int].1 == chunks@[p as int].1@);
            assert(positions(chosen@) == seq![p as int]);
        },
        None => {
            assert(positions(chosen@) == Seq::<int>::empty());
        },
    }
    assert(positions(chosen@) + affordable(order, all, current_page, 0, total as nat) =~= wanted);
    let mut k: usize = 0;
    while k < ranked.len()
        invariant
            k <= ranked@.len(),
            all == pages(chunks@),
            wanted == selected(nats(scores@), all, current_page),
            order == positions(ranked@),
            forall|i: int| 0 <= i < ranked@.len() ==> #[trigger] ranked@[i] < chunks@.len(),
            forall|i: int| 0 <= i < chosen@.len() ==> #[trigger] chosen@[i] < chunks@.len(),
            positions(chosen@) + affordable(order, all, current_page, k as int, total as nat)
                == wanted,
        decreases ranked@.len() - k,
    {
        let p: usize = ranked[k];
        assert(order[k as int] == p);
        assert(all[p as int] == (chunks@[p as int].0, chunks@[p as int].1@));
        if chunks[p].0 != current_page {
            let n: usize = byte_length(chunks[p].1.as_str());
            if n > MAX_CONTEXT_CHARS || total > MAX_CONTEXT_CHARS - n {
                assert(positions(chosen@) =~= wanted);
                return chosen;
            }
            let ghost before = positions(chosen@);
            chosen.push(p);
            assert(positions(chosen@) =~= before.push(p as int));
            total = total + n;
            assert(positions(chosen@) + affordable(order, all, current_page, k + 1, total as nat)
                =~= before + (seq![p as int] + affordable(
                order,
                all,
                current_page,
                k + 1,
                total as nat,
            )));
        }
        k = k + 1;
    }
    assert(positions(chosen@) =~= wanted);
    chosen
}

fn render(page: i32, text: &str, current_page: i32) -> (v: Vec<char>)
    ensures
        v@ == rendered((page, text@), current_page),
{
    let mut v = chars_of("=== Page ");
    push_text(&mut v, &format_i32(page));
    if page == current_page {
        push_text(&mut v, &chars_of(" (CURRENT PAGE — user is viewing this) ===\n"));
    } else {
        push_text(&mut v, &chars_of(" ===\n"));
    }
    push_text(&mut v, &chars_of(text));
    v
}

/// The text that goes with a question, where `scores` holds the relevance of
/// each page.
pub fn assemble_context(
    scores: &Vec<usize>,
    chunks: &[(i32, String)],
    current_page: i32,
) -> (s: String)
    requires
        scores@.len() == chunks@.len(),
    ensures
        s@ == context(nats(scores@), pages(chunks@), current_page),
{
    let chosen = select(scores, chunks, current_page);
    let ghost all = pages(chunks@);
    let ghost picks = positions(chosen@);
    let mut keys: Vec<i128> = Vec::new();
    let mut i: usize = 0;
    while i < chosen.len()
        invariant
            i <= chosen@.len(),
            forall|k: int| 0 <= k < chosen@.len() ==> #[trigger] chosen@[k] < chunks@.len(),
            keys@.len() == i,
            forall|k: int| 0 <= k < i ==> #[trigger] keys@[k] == chunks@[chosen@[k] as int].0,
        decreases chosen@.len() - i,
    {
        keys.push(chunks[chosen[i]].0 as i128);
        i = i + 1;
    }
    let ghost page_keys = picks.map_values(|p: int| all[p].0 as int);
    assert(ints(keys@) =~= page_keys);
    let order = stable_positions(&keys);
    let ghost sorted = by_page(picks, all);
    let ghost parts_wanted = sorted.map_values(|c: (i32, Seq<char>)| rendered(c, current_page));
    let mut parts: Vec<Vec<char>> = Vec::new();
    let mut k: usize = 0;
    while k < order.len()
        invariant
            k <= order@.len(),
            all == pages(chunks@),
            picks == positions(chosen@),
            forall|m: int| 0 <= m < order@.len() ==> #[trigger] order@[m] < chosen@.len(),
            forall|m: int| 0 <= m < chosen@.len() ==> #[trigger] chosen@[m] < chunks@.len(),
            page_keys == picks.map_values(|p: int| all[p].0 as int),
            positions(order@) == stable_order(page_keys, picks.len()),
            sorted == by_page(picks, all),
            parts_wanted == sorted.map_values(|c: (i32, Seq<char>)| rendered(c, current_page)),
            parts@.len() == k,
            forall|m: int| 0 <= m < k ==> (#[trigger] parts@[m])@ == parts_wanted[m],
        decreases order@.len() - k,
    {
        let p: usize = chosen[order[k]];
        let part = render(chunks[p].0, chunks[p].1.as_str(), current_page);
        proof {
            assert(positions(order@)[k as int] == order@[k as int]);
            assert(picks[order@[k as int] as int] == p);
            assert(sorted[k as int] == all[p as int]);
            assert(all[p as int] == (chunks@[p as int].0, chunks@[p as int].1@));
            assert(part@ == parts_wanted[k as int]);
        }
        parts.push(part);
        k = k + 1;
    }
    assert(texts(parts@) =~= parts_wanted);
    string_of(&join(&parts, &chars_of("\n\n")))
}

/// The text that goes with a question: the page that the user is viewing, and
/// as many of the other pages, the most relevant first, as fit beside it, by
/// page number. It is empty where there are no pages.
pub fn build_context(
    query: &str,
    history: &[(String, String)],
    chunks: &[(i32, String)],
    current_page: i32,
) -> (s: String)
    ensures
        s@ == context(
            relevances(pages(chunks@), query@, messages(history@)),
            pages(chunks@),
            current_page,
        ),
        chunks@.len() == 0 ==> s@.len() == 0,
{
    let mut scores: Vec<usize> = Vec::new();
    let ghost wanted = relevances(pages(chunks@), query@, messages(history@));
    let mut i: usize = 0;
    while i < chunks.len()
        invariant
            i <= chunks@.len(),
            wanted == relevances(pages(chunks@), query@, messages(history@)),
            scores@.len() == i,
            forall|k: int| 0 <= k < i ==> #[trigger] scores@[k] == wanted[k],
        decreases chunks@.len() - i,
    {
        let score: usize = relevance_score(chunks[i].1.as_str(), query, history);
        assert(pages(chunks@)[i as int].1 == chunks@[i as int].1@);
        scores.push(score);
        i = i + 1;
    }
    assert(nats(scores@) =~= wanted);
    proof {
        if chunks@.len() == 0 {
            assert(selected(wanted, pages(chunks@), current_page) =~= Seq::<int>::empty());
            assert(by_page(Seq::<int>::empty(), pages(chunks@)) =~= Seq::empty());
        }
    }
    assemble_context(&scores, chunks, current_page)
}

// ---------------------------------------------------------------------------
// Laws
// ---------------------------------------------------------------------------

/// How many bytes the texts of the chunks at `chosen` take.
pub open spec fn total_bytes(chosen: Seq<int>, chunks: Seq<(i32, Seq<char>)>) -> nat
    decreases chosen.len(),
{
    if chosen.len() == 0 {
        0
    } else {
        byte_len(chunks[chosen[0]].1) + total_bytes(chosen.skip(1), chunks)
    }
}

/// The pages that are sent ascend.
pub proof fn sent_pages_ascend(chosen: Seq<int>, chunks: Seq<(i32, Seq<char>)>)
    ensures
        by_page(chosen, chunks).len() == chosen.len(),
        forall|i: int, j: int|
            0 <= i < j < chosen.len() ==> (#[trigger] by_page(chosen, chunks)[i]).0
                <= (#[trigger] by_page(chosen, chunks)[j]).0,
{
    let keys = chosen.map_values(|p: int| chunks[p].0 as int);
    let order = stable_order(keys, chosen.len());
    stable_order_is_sorted(keys, chosen.len());
    assert forall|i: int, j: int| 0 <= i < j < chosen.len() implies (#[trigger] by_page(
        chosen,
        chunks,
    )[i]).0 <= (#[trigger] by_page(chosen, chunks)[j]).0 by {
        assert(order.contains(order[i]));
        assert(order.contains(order[j]));
        assert(precedes(keys, order[i], order[j]));
    }
}

proof fn lemma_current_chunk(chunks: Seq<(i32, Seq<char>)>, current_page: i32, from: int, p: int)
    requires
        0 <= from <= p < chunks.len(),
        chunks[p].0 == current_page,
    ensures
        current_chunk(chunks, current_page, from) matches Some(q) && from <= q <= p
            && chunks[q].0 == current_page,
    decreases p - from,
{
    if chunks[from].0 != current_page {
        lemma_current_chunk(chunks, current_page, from + 1, p);
    }
}

/// The page that the user is viewing is sent, where it has any text, however
/// little it says of what was asked.
pub proof fn current_page_is_sent(
    scores: Seq<nat>,
    chunks: Seq<(i32, Seq<char>)>,
    current_page: i32,
    p: int,
)
    requires
        0 <= p < chunks.len(),
        chunks[p].0 == current_page,
    ensures
        selected(scores, chunks, current_page).len() > 0,
        chunks[selected(scores, chunks, current_page)[0]].0 == current_page,
{
    lemma_current_chunk(chunks, current_page, 0, p);
}

proof fn lemma_affordable_fits(
    ranked: Seq<int>,
    chunks: Seq<(i32, Seq<char>)>,
    current_page: i32,
    from: int,
    total: nat,
)
    requires
        0 <= from,
    ensures
        ({
            let more = affordable(ranked, chunks, current_page, from, total);
            more.len() > 0 ==> total + total_bytes(more, chunks) <= MAX_CONTEXT_CHARS
        }),
    decreases ranked.len() - from,
{
    if from < ranked.len() {
        let p = ranked[from];
        if chunks[p].0 == current_page {
            lemma_affordable_fits(ranked, chunks, current_page, from + 1, total);
        } else if total + byte_len(chunks[p].1) <= MAX_CONTEXT_CHARS {
            let now = total + byte_len(chunks[p].1);
            let rest = affordable(ranked, chunks, current_page, from + 1, now);
            lemma_affordable_fits(ranked, chunks, current_page, from + 1, now);
            assert((seq![p] + rest).skip(1) == rest);
            if rest.len() == 0 {
                assert(total_bytes(rest, chunks) == 0);
            }
        }
    }
}

/// The texts that are sent stay within the limit, except for a current page
/// that is longer by itself and is then sent alone.
pub proof fn sent_text_fits(scores: Seq<nat>, chunks: Seq<(i32, Seq<char>)>, current_page: i32)
    ensures
        ({
            let chosen = selected(scores, chunks, current_page);
            ||| total_bytes(chosen, chunks) <= MAX_CONTEXT_CHARS
            ||| chosen.len() == 1 && chunks[chosen[0]].0 == current_page
        }),
{
    let ranked = ranking(scores, chunks, current_page);
    let chosen = selected(scores, chunks, current_page);
    match current_chunk(chunks, current_page, 0) {
        None => {
            lemma_affordable_fits(ranked, chunks, current_page, 0, 0);
            if chosen.len() == 0 {
                assert(total_bytes(chosen, chunks) == 0);
            }
        },
        Some(p) => {
            let more = affordable(ranked, chunks, current_page, 0, byte_len(chunks[p].1));
            lemma_affordable_fits(ranked, chunks, current_page, 0, byte_len(chunks[p].1));
            lemma_current_found(chunks, current_page, 0);
            assert((seq![p] + more).skip(1) == more);
        },
    }
}

proof fn lemma_current_found(chunks: Seq<(i32, Seq<char>)>, current_page: i32, from: int)
    requires
        0 <= from,
    ensures
        current_chunk(chunks, current_page, from) matches Some(q) ==> from <= q < chunks.len()
            && chunks[q].0 == current_page,
    decreases chunks.len() - from,
{
    if from < chunks.len() && chunks[from].0 != current_page {
        lemma_current_found(chunks, current_page, from + 1);
    }
}

/// In the ranking each page stands once. Of two pages of which neither is the
/// current one, the one of greater relevance stands first, and of two of equal
/// relevance the one that comes first in the document.
pub proof fn more_relevant_pages_are_ranked_first(
    scores: Seq<nat>,
    chunks: Seq<(i32, Seq<char>)>,
    current_page: i32,
)
    ensures
        ranking(scores, chunks, current_page).len() == chunks.len(),
        forall|p: int| #[trigger]
            ranking(scores, chunks, current_page).contains(p) <==> 0 <= p < chunks.len(),
        forall|i: int, j: int|
            0 <= i < j < chunks.len() ==> ({
                let p = #[trigger] ranking(scores, chunks, current_page)[i];
                let q = #[trigger] ranking(scores, chunks, current_page)[j];
                &&& p != q
                &&& chunks[p].0 != current_page && chunks[q].0 != current_page ==> scores[p]
                    > scores[q] || (scores[p] == scores[q] && p < q)
            }),
{
    let keys = rank_keys(scores, chunks, current_page);
    let ranked = ranking(scores, chunks, current_page);
    stable_order_is_sorted(keys, chunks.len());
    assert forall|i: int, j: int| 0 <= i < j < chunks.len() implies ({
        let p = #[trigger] ranked[i];
        let q = #[trigger] ranked[j];
        &&& p != q
        &&& chunks[p].0 != current_page && chunks[q].0 != current_page ==> scores[p] > scores[q]
            || (scores[p] == scores[q] && p < q)
    }) by {
        let p = ranked[i];
        let q = ranked[j];
        assert(ranked.contains(p));
        assert(ranked.contains(q));
        assert(precedes(keys, p, q));
    }
}

/// Whether the position `p`, which is not that of the current page, stands in
/// `ranked` from position `from` on and before position `c`.
spec fn among(
    ranked: Seq<int>,
    chunks: Seq<(i32, Seq<char>)>,
    current_page: i32,
    from: int,
    c: int,
    p: int,
) -> bool {
    chunks[p].0 != current_page && exists|k: int| from <= k < c && #[trigger] ranked[k] == p
}

proof fn lemma_among_next(
    ranked: Seq<int>,
    chunks: Seq<(i32, Seq<char>)>,
    current_page: i32,
    from: int,
    c: int,
    p: int,
)
    requires
        from < c,
    ensures
        among(ranked, chunks, current_page, from, c, p) <==> among(
            ranked,
            chunks,
            current_page,
            from + 1,
            c,
            p,
        ) || (ranked[from] == p && chunks[p].0 != current_page),
{
    if among(ranked, chunks, current_page, from, c, p) {
        let k = choose|k: int| from <= k < c && #[trigger] ranked[k] == p;
        assert(ranked[k] == p);
    }
    if among(ranked, chunks, current_page, from + 1, c, p) {
        let k = choose|k: int| from + 1 <= k < c && #[trigger] ranked[k] == p;
        assert(ranked[k] == p);
    }
}

proof fn lemma_affordable_cut(
    ranked: Seq<int>,
    chunks: Seq<(i32, Seq<char>)>,
    current_page: i32,
    from: int,
    total: nat,
) -> (c: int)
    requires
        0 <= from <= ranked.len(),
        forall|i: int, j: int|
            0 <= i < j < ranked.len() ==> #[trigger] ranked[i] != #[trigger] ranked[j],
    ensures
        ({
            let more = affordable(ranked, chunks, current_page, from, total);
            &&& from <= c <= ranked.len()
            &&& forall|p: int| #[trigger]
                more.contains(p) <==> among(ranked, chunks, current_page, from, c, p)
            &&& forall|i: int, j: int| 0 <= i < j < more.len() ==> more[i] != more[j]
            &&& c < ranked.len() ==> chunks[ranked[c]].0 != current_page && total + total_bytes(
                more,
                chunks,
            ) + byte_len(chunks[ranked[c]].1) > MAX_CONTEXT_CHARS
        }),
    decreases ranked.len() - from,
{
    let more = affordable(ranked, chunks, current_page, from, total);
    if from >= ranked.len() {
        from
    } else {
        let p = ranked[from];
        if chunks[p].0 == current_page {
            let rest = affordable(ranked, chunks, current_page, from + 1, total);
            let c = lemma_affordable_cut(ranked, chunks, current_page, from + 1, total);
            assert(more == rest);
            assert forall|q: int| #[trigger] more.contains(q) <==> among(
                ranked,
                chunks,
                current_page,
                from,
                c,
                q,
            ) by {
                lemma_among_next(ranked, chunks, current_page, from, c, q);
                assert(rest.contains(q) <==> among(ranked, chunks, current_page, from + 1, c, q));
            }
            c
        } else if total + byte_len(chunks[p].1) > MAX_CONTEXT_CHARS {
            assert(total_bytes(more, chunks) == 0);
            from
        } else {
            let now = total + byte_len(chunks[p].1);
            let rest = affordable(ranked, chunks, current_page, from + 1, now);
            let c = lemma_affordable_cut(ranked, chunks, current_page, from + 1, now);
            assert(more == seq![p] + rest);
            assert(more.skip(1) =~= rest);
            assert(more[0] == p);
            assert(total_bytes(more, chunks) == byte_len(chunks[p].1) + total_bytes(rest, chunks));
            assert forall|q: int| #[trigger] more.contains(q) <==> among(
                ranked,
                chunks,
                current_page,
                from,
                c,
                q,
            ) by {
                lemma_among_next(ranked, chunks, current_page, from, c, q);
                if more.contains(q) && q != p {
                    assert(rest[more.index_of(q) - 1] == q);
                    assert(rest.contains(q));
                }
                if rest.contains(q) {
                    assert(more[rest.index_of(q) + 1] == q);
                }
            }
            assert(!rest.contains(p)) by {
                if rest.contains(p) {
                    let k = choose|k: int| from + 1 <= k < c && #[trigger] ranked[k] == p;
                    assert(ranked[from] != ranked[k]);
                }
            }
            assert forall|i: int, j: int| 0 <= i < j < more.len() implies more[i] != more[j] by {
                if i == 0 {
                    assert(rest.contains(rest[j - 1]));
                } else {
                    assert(rest[i - 1] != rest[j - 1]);
                }
            }
            c
        }
    }
}

/// How many bytes the texts of those of the first `n` chunks take that `sent`
/// lists.
pub open spec fn sent_bytes(sent: Seq<int>, chunks: Seq<(i32, Seq<char>)>, n: nat) -> nat
    decreases n,
{
    if n == 0 {
        0
    } else {
        sent_bytes(sent, chunks, (n - 1) as nat) + if sent.contains(n - 1) {
            byte_len(chunks[n - 1].1)
        } else {
            0
        }
    }
}

proof fn lemma_bytes_of_one_more(
    p: int,
    rest: Seq<int>,
    chunks: Seq<(i32, Seq<char>)>,
    n: nat,
)
    requires
        !rest.contains(p),
        0 <= p,
    ensures
        sent_bytes(seq![p] + rest, chunks, n) == sent_bytes(rest, chunks, n) + if p < n {
            byte_len(chunks[p].1)
        } else {
            0
        },
    decreases n,
{
    if n > 0 {
        let all = seq![p] + rest;
        lemma_bytes_of_one_more(p, rest, chunks, (n - 1) as nat);
        assert(all.contains(n - 1) <==> rest.contains(n - 1) || n - 1 == p) by {
            assert(all[0] == p);
            if rest.contains(n - 1) {
                assert(all[rest.index_of(n - 1) + 1] == n - 1);
            }
            if all.contains(n - 1) && n - 1 != p {
                assert(rest[all.index_of(n - 1) - 1] == n - 1);
            }
        }
    }
}

proof fn lemma_bytes_in_any_order(list: Seq<int>, chunks: Seq<(i32, Seq<char>)>)
    requires
        forall|i: int| 0 <= i < list.len() ==> 0 <= #[trigger] list[i] < chunks.len(),
        forall|i: int, j: int| 0 <= i < j < list.len() ==> list[i] != list[j],
    ensures
        total_bytes(list, chunks) == sent_bytes(list, chunks, chunks.len()),
    decreases list.len(),
{
    if list.len() == 0 {
        lemma_bytes_of_none(list, chunks, chunks.len());
    } else {
        let p = list[0];
        let rest = list.skip(1);
        assert forall|i: int, j: int| 0 <= i < j < rest.len() implies rest[i] != rest[j] by {
            assert(list[i + 1] != list[j + 1]);
        }
        lemma_bytes_in_any_order(rest, chunks);
        assert(!rest.contains(p)) by {
            if rest.contains(p) {
                assert(list[0] != list[rest.index_of(p) + 1]);
            }
        }
        lemma_bytes_of_one_more(p, rest, chunks, chunks.len());
        assert(list =~= seq![p] + rest);
    }
}

proof fn lemma_bytes_of_none(list: Seq<int>, chunks: Seq<(i32, Seq<char>)>, n: nat)
    requires
        list.len() == 0,
    ensures
        sent_bytes(list, chunks, n) == 0,
    decreases n,
{
    if n > 0 {
        lemma_bytes_of_none(list, chunks, (n - 1) as nat);
    }
}

proof fn lemma_bytes_of_same(
    a: Seq<int>,
    b: Seq<int>,
    chunks: Seq<(i32, Seq<char>)>,
    n: nat,
)
    requires
        forall|p: int| #[trigger] a.contains(p) <==> b.contains(p),
    ensures
        sent_bytes(a, chunks, n) == sent_bytes(b, chunks, n),
    decreases n,
{
    if n > 0 {
        lemma_bytes_of_same(a, b, chunks, (n - 1) as nat);
        assert(a.contains(n - 1) <==> b.contains(n - 1));
    }
}

proof fn lemma_current_is_first(chunks: Seq<(i32, Seq<char>)>, current_page: i32, from: int)
    requires
        0 <= from <= chunks.len(),
    ensures
        match current_chunk(chunks, current_page, from) {
            Some(p) => from <= p < chunks.len() && chunks[p].0 == current_page && forall|q: int|
                from <= q < p ==> (#[trigger] chunks[q]).0 != current_page,
            None => forall|q: int| from <= q < chunks.len() ==> (#[trigger] chunks[q]).0
                != current_page,
        },
    decreases chunks.len() - from,
{
    if from < chunks.len() && chunks[from].0 != current_page {
        lemma_current_is_first(chunks, current_page, from + 1);
    }
}

/// Whether `chosen` lists, in whatever order, the current page and the first `c` of
/// the others, by rank, behind which no other fits.
spec fn cut_at(
    chosen: Seq<int>,
    scores: Seq<nat>,
    chunks: Seq<(i32, Seq<char>)>,
    current_page: i32,
    c: int,
) -> bool {
    let ranked = ranking(scores, chunks, current_page);
    &&& 0 <= c <= chunks.len()
    &&& forall|p: int| #[trigger]
        chosen.contains(p) <==> among(ranked, chunks, current_page, 0, c, p) || current_chunk(
            chunks,
            current_page,
            0,
        ) == Some(p)
    &&& c < chunks.len() ==> chunks[ranked[c]].0 != current_page && sent_bytes(
        chosen,
        chunks,
        chunks.len(),
    ) + byte_len(chunks[ranked[c]].1) > MAX_CONTEXT_CHARS
}

proof fn lemma_selected_cut(
    scores: Seq<nat>,
    chunks: Seq<(i32, Seq<char>)>,
    current_page: i32,
) -> (c: int)
    ensures
        ({
            let chosen = selected(scores, chunks, current_page);
            &&& forall|i: int| 0 <= i < chosen.len() ==> 0 <= #[trigger] chosen[i] < chunks.len()
            &&& forall|i: int, j: int| 0 <= i < j < chosen.len() ==> chosen[i] != chosen[j]
            &&& cut_at(chosen, scores, chunks, current_page, c)
            &&& sent_bytes(chosen, chunks, chunks.len()) == total_bytes(chosen, chunks)
        }),
{
    let ranked = ranking(scores, chunks, current_page);
    let chosen = selected(scores, chunks, current_page);
    more_relevant_pages_are_ranked_first(scores, chunks, current_page);
    lemma_current_is_first(chunks, current_page, 0);
    let current = current_chunk(chunks, current_page, 0);
    let start = match current {
        Some(p) => byte_len(chunks[p].1),
        None => 0,
    };
    let more = affordable(ranked, chunks, current_page, 0, start);
    let c = lemma_affordable_cut(ranked, chunks, current_page, 0, start);
    assert forall|p: int| #[trigger] more.contains(p) <==> among(
        ranked,
        chunks,
        current_page,
        0,
        c,
        p,
    ) by {}
    assert forall|i: int| 0 <= i < more.len() implies 0 <= #[trigger] more[i] < chunks.len()
        && chunks[more[i]].0 != current_page by {
        assert(more.contains(more[i]));
        let k = choose|k: int|
            0 <= k < c && #[trigger] ranked[k] == more[i];
        assert(ranked.contains(ranked[k]));
    }
    match current {
        Some(m) => {
            assert(chosen == seq![m] + more);
            assert(chosen.skip(1) =~= more);
            assert forall|p: int| #[trigger] chosen.contains(p) <==> among(
                ranked,
                chunks,
                current_page,
                0,
                c,
                p,
            ) || current == Some(p) by {
                assert(chosen[0] == m);
                if more.contains(p) {
                    assert(chosen[more.index_of(p) + 1] == p);
                }
                if chosen.contains(p) && p != m {
                    assert(more[chosen.index_of(p) - 1] == p);
                    assert(more.contains(p));
                }
            }
            assert forall|i: int, j: int| 0 <= i < j < chosen.len() implies chosen[i]
                != chosen[j] by {
                if i == 0 {
                    assert(chosen[j] == more[j - 1]);
                } else {
                    assert(more[i - 1] != more[j - 1]);
                }
            }
            assert forall|i: int| 0 <= i < chosen.len() implies 0 <= #[trigger] chosen[i]
                < chunks.len() by {
                if i > 0 {
                    assert(chosen[i] == more[i - 1]);
                }
            }
        },
        None => {
            assert(chosen == more);
        },
    }
    lemma_bytes_in_any_order(chosen, chunks);
    c
}

proof fn lemma_rank_of(
    scores: Seq<nat>,
    chunks: Seq<(i32, Seq<char>)>,
    current_page: i32,
    p: int,
) -> (k: int)
    requires
        0 <= p < chunks.len(),
    ensures
        0 <= k < chunks.len(),
        ranking(scores, chunks, current_page)[k] == p,
{
    more_relevant_pages_are_ranked_first(scores, chunks, current_page);
    let ranked = ranking(scores, chunks, current_page);
    assert(ranked.contains(p));
    ranked.index_of(p)
}

proof fn lemma_rank_order(
    scores: Seq<nat>,
    chunks: Seq<(i32, Seq<char>)>,
    current_page: i32,
    i: int,
    j: int,
)
    requires
        0 <= i < j < chunks.len(),
    ensures
        ({
            let p = ranking(scores, chunks, current_page)[i];
            let q = ranking(scores, chunks, current_page)[j];
            &&& 0 <= p < chunks.len()
            &&& 0 <= q < chunks.len()
            &&& p != q
            &&& chunks[p].0 != current_page && chunks[q].0 != current_page ==> scores[p] > scores[q]
                || (scores[p] == scores[q] && p < q)
        }),
{
    more_relevant_pages_are_ranked_first(scores, chunks, current_page);
    let ranked = ranking(scores, chunks, current_page);
    assert(ranked.contains(ranked[i]));
    assert(ranked.contains(ranked[j]));
}

proof fn lemma_current_sent(
    sent: Seq<int>,
    scores: Seq<nat>,
    chunks: Seq<(i32, Seq<char>)>,
    current_page: i32,
    c: int,
    p: int,
)
    requires
        cut_at(sent, scores, chunks, current_page, c),
        0 <= p < chunks.len(),
        chunks[p].0 == current_page,
    ensures
        sent.contains(p) <==> forall|q: int|
            0 <= q < p ==> (#[trigger] chunks[q]).0 != current_page,
{
    lemma_current_is_first(chunks, current_page, 0);
    let current = current_chunk(chunks, current_page, 0);
    assert(sent.contains(p) <==> current == Some(p));
    assert(current is Some);
    let m = current->Some_0;
    if m < p {
        assert(chunks[m].0 == current_page);
    }
}

proof fn lemma_better_sent(
    sent: Seq<int>,
    scores: Seq<nat>,
    chunks: Seq<(i32, Seq<char>)>,
    current_page: i32,
    c: int,
    p: int,
    q: int,
)
    requires
        cut_at(sent, scores, chunks, current_page, c),
        0 <= p < chunks.len(),
        0 <= q < chunks.len(),
        chunks[p].0 != current_page,
        chunks[q].0 != current_page,
        sent.contains(p),
        scores[q] > scores[p] || (scores[q] == scores[p] && q < p),
    ensures
        sent.contains(q),
{
    let ranked = ranking(scores, chunks, current_page);
    lemma_current_is_first(chunks, current_page, 0);
    assert(among(ranked, chunks, current_page, 0, c, p));
    let k = choose|k: int| 0 <= k < c && #[trigger] ranked[k] == p;
    let m = lemma_rank_of(scores, chunks, current_page, q);
    if k < m {
        lemma_rank_order(scores, chunks, current_page, k, m);
    }
    assert(m <= k);
    assert(ranked[m] == q);
    assert(among(ranked, chunks, current_page, 0, c, q));
}

proof fn lemma_left_out(
    sent: Seq<int>,
    scores: Seq<nat>,
    chunks: Seq<(i32, Seq<char>)>,
    current_page: i32,
    c: int,
    q: int,
) -> (r: int)
    requires
        cut_at(sent, scores, chunks, current_page, c),
        0 <= q < chunks.len(),
        chunks[q].0 != current_page,
        !sent.contains(q),
    ensures
        0 <= r < chunks.len(),
        chunks[r].0 != current_page,
        !sent.contains(r),
        r == q || scores[r] > scores[q] || (scores[r] == scores[q] && r < q),
        sent_bytes(sent, chunks, chunks.len()) + byte_len(chunks[r].1) > MAX_CONTEXT_CHARS,
{
    let ranked = ranking(scores, chunks, current_page);
    lemma_current_is_first(chunks, current_page, 0);
    let m = lemma_rank_of(scores, chunks, current_page, q);
    assert(!among(ranked, chunks, current_page, 0, c, q));
    assert(m >= c);
    let r = ranked[c];
    if among(ranked, chunks, current_page, 0, c, r) {
        let k = choose|k: int|
            0 <= k < c && #[trigger] ranked[k] == r;
        lemma_rank_order(scores, chunks, current_page, k, c);
    }
    if c < m {
        lemma_rank_order(scores, chunks, current_page, c, m);
    }
    assert(!sent.contains(r));
    r
}

/// What goes with a question are the pages `sent`, ascending and each once: each
/// with its whole text under a heading that names it, and a blank line between two
/// of them. The page that the user is viewing is among them, whatever its length.
/// Where one of the others is sent, so is each that is more relevant, or as relevant
/// and before it. The texts stay within the limit, but for a current page that is
/// sent alone. A page is left out only where it, or one that goes before it, would
/// not fit any more.
pub proof fn context_holds_the_best_pages(
    scores: Seq<nat>,
    chunks: Seq<(i32, Seq<char>)>,
    current_page: i32,
) -> (sent: Seq<int>)
    requires
        scores.len() == chunks.len(),
    ensures
        context(scores, chunks, current_page) == joined(
            sent.map_values(
                |p: int|
                    "=== Page "@ + signed_decimal(chunks[p].0 as int) + (if chunks[p].0
                        == current_page {
                        " (CURRENT PAGE — user is viewing this) ===\n"@
                    } else {
                        " ===\n"@
                    }) + chunks[p].1,
            ),
            "\n\n"@,
        ),
        forall|i: int| 0 <= i < sent.len() ==> 0 <= #[trigger] sent[i] < chunks.len(),
        forall|i: int, j: int| 0 <= i < j < sent.len() ==> sent[i] != sent[j],
        forall|i: int, j: int|
            0 <= i < j < sent.len() ==> chunks[#[trigger] sent[i]].0 <= chunks[#[trigger] sent[j]].0,
        forall|p: int|
            0 <= p < chunks.len() && chunks[p].0 == current_page ==> (#[trigger] sent.contains(p)
                <==> forall|q: int| 0 <= q < p ==> (#[trigger] chunks[q]).0 != current_page),
        forall|p: int, q: int|
            0 <= p < chunks.len() && 0 <= q < chunks.len() && chunks[p].0 != current_page
                && chunks[q].0 != current_page && #[trigger] sent.contains(p) && (scores[q]
                > scores[p] || (scores[q] == scores[p] && q < p)) ==> #[trigger] sent.contains(q),
        sent_bytes(sent, chunks, chunks.len()) <= MAX_CONTEXT_CHARS || (sent.len() == 1
            && chunks[sent[0]].0 == current_page),
        forall|q: int|
            0 <= q < chunks.len() && chunks[q].0 != current_page && !#[trigger] sent.contains(q)
                ==> exists|r: int|
                0 <= r < chunks.len() && (#[trigger] chunks[r]).0 != current_page && !sent.contains(
                    r,
                ) && (r == q || scores[r] > scores[q] || (scores[r] == scores[q] && r < q))
                    && sent_bytes(sent, chunks, chunks.len()) + byte_len(chunks[r].1)
                    > MAX_CONTEXT_CHARS,
{
    let (sent, c) = lemma_context_of_cut(scores, chunks, current_page);
    assert forall|p: int|
        0 <= p < chunks.len() && chunks[p].0 == current_page implies (#[trigger] sent.contains(p)
        <==> forall|q: int| 0 <= q < p ==> (#[trigger] chunks[q]).0 != current_page) by {
        lemma_current_sent(sent, scores, chunks, current_page, c, p);
    }
    assert forall|p: int, q: int|
        0 <= p < chunks.len() && 0 <= q < chunks.len() && chunks[p].0 != current_page && chunks[q].0
            != current_page && #[trigger] sent.contains(p) && (scores[q] > scores[p] || (scores[q]
            == scores[p] && q < p)) implies #[trigger] sent.contains(q) by {
        lemma_better_sent(sent, scores, chunks, current_page, c, p, q);
    }
    assert forall|q: int|
        0 <= q < chunks.len() && chunks[q].0 != current_page && !#[trigger] sent.contains(
            q,
        ) implies exists|r: int|
        0 <= r < chunks.len() && (#[trigger] chunks[r]).0 != current_page && !sent.contains(r) && (r
            == q || scores[r] > scores[q] || (scores[r] == scores[q] && r < q)) && sent_bytes(
            sent,
            chunks,
            chunks.len(),
        ) + byte_len(chunks[r].1) > MAX_CONTEXT_CHARS by {
        let r = lemma_left_out(sent, scores, chunks, current_page, c, q);
        assert(chunks[r].0 != current_page);
    }
    sent
}

proof fn lemma_context_of_cut(
    scores: Seq<nat>,
    chunks: Seq<(i32, Seq<char>)>,
    current_page: i32,
) -> (r: (Seq<int>, int))
    ensures
        ({
            let (sent, c) = r;
            &&& context(scores, chunks, current_page) == joined(
                sent.map_values(
                    |p: int|
                        "=== Page "@ + signed_decimal(chunks[p].0 as int) + (if chunks[p].0
                            == current_page {
                            " (CURRENT PAGE — user is viewing this) ===\n"@
                        } else {
                            " ===\n"@
                        }) + chunks[p].1,
                ),
                "\n\n"@,
            )
            &&& forall|i: int| 0 <= i < sent.len() ==> 0 <= #[trigger] sent[i] < chunks.len()
            &&& forall|i: int, j: int| 0 <= i < j < sent.len() ==> sent[i] != sent[j]
            &&& forall|i: int, j: int|
                0 <= i < j < sent.len() ==> chunks[#[trigger] sent[i]].0 <= chunks[
                #[trigger] sent[j]].0
            &&& cut_at(sent, scores, chunks, current_page, c)
            &&& sent_bytes(sent, chunks, chunks.len()) <= MAX_CONTEXT_CHARS || (sent.len() == 1
                && chunks[sent[0]].0 == current_page)
        }),
{
    let chosen = selected(scores, chunks, current_page);
    let c = lemma_selected_cut(scores, chunks, current_page);
    let keys = chosen.map_values(|p: int| chunks[p].0 as int);
    let order = stable_order(keys, chosen.len());
    stable_order_is_sorted(keys, chosen.len());
    assert forall|i: int| 0 <= i < order.len() implies 0 <= #[trigger] order[i] < chosen.len() by {
        assert(order.contains(order[i]));
    }
    let sent = order.map_values(|i: int| chosen[i]);
    let show = |p: int|
        "=== Page "@ + signed_decimal(chunks[p].0 as int) + (if chunks[p].0 == current_page {
            " (CURRENT PAGE — user is viewing this) ===\n"@
        } else {
            " ===\n"@
        }) + chunks[p].1;
    assert(by_page(chosen, chunks).map_values(|c: (i32, Seq<char>)| rendered(c, current_page))
        =~= sent.map_values(show));
    assert forall|p: int| #[trigger] sent.contains(p) <==> chosen.contains(p) by {
        if sent.contains(p) {
            let i = sent.index_of(p);
            assert(chosen[order[i]] == p);
        }
        if chosen.contains(p) {
            let k = chosen.index_of(p);
            assert(order.contains(k));
            assert(sent[order.index_of(k)] == p);
        }
    }
    assert forall|i: int, j: int| 0 <= i < j < sent.len() implies sent[i] != sent[j] by {
        assert(precedes(keys, order[i], order[j]));
        if order[i] < order[j] {
            assert(chosen[order[i]] != chosen[order[j]]);
        } else {
            assert(chosen[order[j]] != chosen[order[i]]);
        }
    }
    assert forall|i: int, j: int| 0 <= i < j < sent.len() implies chunks[#[trigger] sent[i]].0
        <= chunks[#[trigger] sent[j]].0 by {
        assert(precedes(keys, order[i], order[j]));
    }
    lemma_bytes_of_same(sent, chosen, chunks, chunks.len());
    sent_text_fits(scores, chunks, current_page);
    if chosen.len() == 1 {
        assert(sent[0] == chosen[order[0]]);
    }
    (sent, c)
}

proof fn lemma_matches_of_both(haystack: Seq<char>, a: Seq<Seq<char>>, b: Seq<Seq<char>>)
    ensures
        matches_in(haystack, a + b) == matches_in(haystack, a) + matches_in(haystack, b),
    decreases b.len(),
{
    if b.len() == 0 {
        assert(a + b =~= a);
    } else {
        lemma_matches_of_both(haystack, a, b.drop_last());
        assert((a + b).drop_last() =~= a + b.drop_last());
        assert((a + b).last() == b.last());
    }
}

proof fn lemma_relevance_parts(
    text: Seq<char>,
    query: Seq<char>,
    history: Seq<(Seq<char>, Seq<char>)>,
)
    ensures
        relevance(text, query, history) == matches_in(lowercase_of(text), lower_words(query))
            + matches_in(lowercase_of(text), recent_words(history, 4)),
        relevance(text, query, Seq::empty()) == matches_in(lowercase_of(text), lower_words(query)),
{
    let none = Seq::<(Seq<char>, Seq<char>)>::empty();
    lemma_matches_of_both(lowercase_of(text), lower_words(query), recent_words(history, 4));
    lemma_matches_of_both(lowercase_of(text), lower_words(query), recent_words(none, 4));
}

/// Each word of a question counts for itself: the relevance to two questions with
/// white space between them is that to the one, with what was said before, and that
/// to the other taken together.
pub proof fn relevance_counts_each_word(
    text: Seq<char>,
    first: Seq<char>,
    c: char,
    second: Seq<char>,
    history: Seq<(Seq<char>, Seq<char>)>,
)
    requires
        is_white(c),
    ensures
        relevance(text, first.push(c) + second, history) == relevance(text, first, history)
            + relevance(text, second, Seq::empty()),
{
    white_space_parts_words(first, c, second);
    assert(lower_words(first.push(c) + second) =~= lower_words(first) + lower_words(second));
    lemma_matches_of_both(lowercase_of(text), lower_words(first), lower_words(second));
    lemma_relevance_parts(text, first.push(c) + second, history);
    lemma_relevance_parts(text, first, history);
    lemma_relevance_parts(text, second, history);
}

/// One word makes a page relevant by one where it takes more than three bytes and
/// stands anywhere in the page's text, both in lower case, and not at all otherwise;
/// no word does not.
pub proof fn relevance_to_one_word(text: Seq<char>, word: Seq<char>)
    requires
        forall|k: int| 0 <= k < word.len() ==> !is_white(#[trigger] word[k]),
    ensures
        relevance(text, word, Seq::empty()) == (if word.len() > 0 && byte_len(lowercase_of(word))
            > 3 && (exists|i: int|
            #![trigger lowercase_of(text).subrange(i, i + lowercase_of(word).len())]
            0 <= i && i + lowercase_of(word).len() <= lowercase_of(text).len() && lowercase_of(
                text,
            ).subrange(i, i + lowercase_of(word).len()) == lowercase_of(word)) {
            1nat
        } else {
            0nat
        }),
{
    let hay = lowercase_of(text);
    let small = lowercase_of(word);
    let none = Seq::<Seq<char>>::empty();
    unbroken_text_is_one_word(word);
    lemma_relevance_parts(text, word, Seq::empty());
    reveal_with_fuel(matches_in, 2);
    if word.len() > 0 {
        assert(lower_words(word) =~= seq![small]);
        assert(seq![small].drop_last() =~= none);
        if has_part(hay, small) {
            let i = choose|i: int| #[trigger] occurs_at(hay, small, i);
            assert(hay.subrange(i, i + small.len()) == small);
        }
        if exists|i: int|
            #![trigger hay.subrange(i, i + small.len())]
            0 <= i && i + small.len() <= hay.len() && hay.subrange(i, i + small.len()) == small {
            let i = choose|i: int|
                #![trigger hay.subrange(i, i + small.len())]
                0 <= i && i + small.len() <= hay.len() && hay.subrange(i, i + small.len()) == small;
            assert(occurs_at(hay, small, i));
        }
    } else {
        assert(lower_words(word) =~= none);
    }
}

/// What was said in the last four messages counts as if it had been asked; what was
/// said before them does not count.
pub proof fn relevance_counts_four_messages(
    text: Seq<char>,
    query: Seq<char>,
    history: Seq<(Seq<char>, Seq<char>)>,
)
    ensures
        history.len() > 4 ==> relevance(text, query, history) == relevance(
            text,
            query,
            history.skip(history.len() - 4),
        ),
        0 < history.len() <= 4 ==> relevance(text, query, history) == relevance(
            text,
            query,
            history.drop_last(),
        ) + relevance(text, history.last().1, Seq::empty()),
{
    lemma_relevance_parts(text, query, history);
    if history.len() > 4 {
        lemma_recent_skip(history, 4);
    } else if history.len() > 0 {
        let hay = lowercase_of(text);
        let front = history.drop_last();
        lemma_relevance_parts(text, query, front);
        lemma_relevance_parts(text, history.last().1, Seq::empty());
        lemma_matches_of_both(hay, lower_words(history.last().1), recent_words(front, 3));
        lemma_recent_all(front, 3, 4);
    }
}

proof fn lemma_recent_skip(history: Seq<(Seq<char>, Seq<char>)>, n: nat)
    requires
        n <= history.len(),
    ensures
        recent_words(history, n) == recent_words(history.skip(history.len() - n), n),
    decreases n,
{
    if n > 0 {
        let last = history.skip(history.len() - n);
        let front = history.drop_last();
        let m = (n - 1) as nat;
        lemma_recent_skip(front, m);
        assert(last.drop_last() =~= front.skip(front.len() - m));
        assert(last.last() == history.last());
    }
}

proof fn lemma_recent_all(history: Seq<(Seq<char>, Seq<char>)>, m: nat, n: nat)
    requires
        history.len() <= m,
        history.len() <= n,
    ensures
        recent_words(history, m) == recent_words(history, n),
    decreases history.len(),
{
    if history.len() > 0 {
        lemma_recent_all(history.drop_last(), (m - 1) as nat, (n - 1) as nat);
    }
}

/// Each page is weighed by its own text, whatever the others say.
pub proof fn each_page_is_weighed_by_its_text(
    chunks: Seq<(i32, Seq<char>)>,
    query: Seq<char>,
    history: Seq<(Seq<char>, Seq<char>)>,
)
    ensures
        relevances(chunks, query, history).len() == chunks.len(),
        forall|i: int|
            0 <= i < chunks.len() ==> #[trigger] relevances(chunks, query, history)[i] == relevance(
                chunks[i].1,
                query,
                history,
            ),
{
}

} // verus!
