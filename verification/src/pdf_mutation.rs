//! Changes to the pages of a PDF document: page selections as the user types
//! them, and the operations that rewrite a document's page list.
use vstd::prelude::*;

use qpdf::{QPdf, QPdfDictionary};

use crate::page_set::{ascending, ascending_lists_agree, insert_page};
use crate::pdf_document::{
    add_page, add_page_before, change_faults, compress_error, compressed_file, contents, copy_faults,
    distinct, empty_document, entries, files, get_num_pages, get_page, get_pages, irregular, number,
    owner, page_entry, page_files, page_list, pages_error, pdf_error, pdf_pages, pdf_rest,
    read_document, ready, remove_page, rest, sound, tree_faults, write_compressed, write_document,
    writing_faults, written_file,
};
use crate::text::{
    all_white, chars_of, copy_range, decimal, decimal_reads_back, find, find_char,
    format_u64, found_character_is_the_first, is_digit, is_white, joined,
    joined_texts_split_back, joining_puts_a_separator_between, lacks, parse_number, parsed_number,
    pieces, push_text, separated_texts_keep_their_pieces, split_on, string_of, texts, trim, trimmed,
    trimming_keeps_the_rest, trimming_takes_white_space_alone,
};

verus! {

// ---------------------------------------------------------------------------
// Page selections
// ---------------------------------------------------------------------------

/// What is said of a text that is no page number.
pub open spec fn bad_number(s: Seq<char>) -> Seq<char> {
    "invalid page number: "@ + s
}

/// What is said of a page beyond the end of a document.
pub open spec fn beyond(page: nat, n_pages: nat) -> Seq<char> {
    "page "@ + decimal(page) + " is beyond the document's "@ + decimal(n_pages) + " pages"@
}

/// The first and last page that one part of a selection names: `"4"` or
/// `"2-5"`, with white space allowed round the dash.
pub open spec fn part_bounds(part: Seq<char>) -> Result<(nat, nat), Seq<char>> {
    let dash = find(part, '-') as int;
    if dash < part.len() {
        let a = part.take(dash);
        let b = part.skip(dash + 1);
        match parsed_number(trimmed(a), u32::MAX as nat) {
            None => Err(bad_number(a)),
            Some(start) => match parsed_number(trimmed(b), u32::MAX as nat) {
                None => Err(bad_number(b)),
                Some(end) => Ok((start, end)),
            },
        }
    } else {
        match parsed_number(part, u32::MAX as nat) {
            None => Err(bad_number(part)),
            Some(n) => Ok((n, n)),
        }
    }
}

/// The page range that one part of a selection names in a document of
/// `n_pages` pages, or what is wrong with it.
pub open spec fn part_range(part: Seq<char>, n_pages: nat) -> Result<(nat, nat), Seq<char>> {
    match part_bounds(part) {
        Err(e) => Err(e),
        Ok((start, end)) => if start == 0 || end == 0 || start > end {
            Err("invalid page range: "@ + part)
        } else if end > n_pages {
            Err(beyond(end, n_pages))
        } else {
            Ok((start, end))
        },
    }
}

/// The page ranges that the parts of a selection name, in order, or what is
/// wrong with the first part that names none. Blank parts are passed over.
pub open spec fn part_ranges(parts: Seq<Seq<char>>, n_pages: nat) -> Result<
    Seq<(nat, nat)>,
    Seq<char>,
>
    decreases parts.len(),
{
    if parts.len() == 0 {
        Ok(Seq::empty())
    } else {
        match part_ranges(parts.drop_last(), n_pages) {
            Err(e) => Err(e),
            Ok(before) => {
                let part = trimmed(parts.last());
                if part.len() == 0 {
                    Ok(before)
                } else {
                    match part_range(part, n_pages) {
                        Err(e) => Err(e),
                        Ok(range) => Ok(before.push(range)),
                    }
                }
            },
        }
    }
}

/// The page ranges that a selection names: its parts stand between commas.
pub open spec fn selected_ranges(input: Seq<char>, n_pages: nat) -> Result<
    Seq<(nat, nat)>,
    Seq<char>,
> {
    part_ranges(pieces(input, ','), n_pages)
}

/// Whether every range of `ranges` runs upwards inside `1..=n_pages`.
pub open spec fn within(ranges: Seq<(nat, nat)>, n_pages: nat) -> bool {
    forall|i: int|
        #![trigger ranges[i]]
        0 <= i < ranges.len() ==> 1 <= ranges[i].0 <= ranges[i].1 <= n_pages
}

/// Whether `page`, counted from 1, lies in one of `ranges`.
pub open spec fn covered(ranges: Seq<(nat, nat)>, page: int) -> bool {
    exists|i: int| 0 <= i < ranges.len() && (#[trigger] ranges[i]).0 <= page <= ranges[i].1
}

fn bad_number_text(s: &Vec<char>) -> (r: String)
    ensures
        r@ == bad_number(s@),
{
    let mut v = chars_of("invalid page number: ");
    push_text(&mut v, s);
    string_of(&v)
}

/// The page range that one part of a selection names, or what is wrong with
/// it.
fn parse_part(part: &Vec<char>, n_pages: u32) -> (r: Result<(u32, u32), String>)
    ensures
        match part_range(part@, n_pages as nat) {
            Ok((start, end)) => r matches Ok((a, b)) && a == start && b == end,
            Err(e) => r matches Err(t) && t@ == e,
        },
{
    let dash: usize = find_char(part, '-');
    let (start, end): (u32, u32) = if dash < part.len() {
        let a = copy_range(part, 0, dash);
        let b = copy_range(part, dash + 1, part.len());
        assert(a@ == part@.take(dash as int));
        assert(b@ == part@.skip(dash + 1));
        let start: u32 = match parse_number(&trim(&a), u32::MAX) {
            Some(n) => n,
            None => {
                return Err(bad_number_text(&a));
            },
        };
        let end: u32 = match parse_number(&trim(&b), u32::MAX) {
            Some(n) => n,
            None => {
                return Err(bad_number_text(&b));
            },
        };
        (start, end)
    } else {
        match parse_number(part, u32::MAX) {
            Some(n) => (n, n),
            None => {
                return Err(bad_number_text(part));
            },
        }
    };
    if start == 0 || end == 0 || start > end {
        let mut v = chars_of("invalid page range: ");
        push_text(&mut v, part);
        return Err(string_of(&v));
    }
    if end > n_pages {
        let mut v = chars_of("page ");
        push_text(&mut v, &format_u64(end as u64));
        push_text(&mut v, &chars_of(" is beyond the document's "));
        push_text(&mut v, &format_u64(n_pages as u64));
        push_text(&mut v, &chars_of(" pages"));
        return Err(string_of(&v));
    }
    Ok((start, end))
}

proof fn lemma_covered_push(ranges: Seq<(nat, nat)>, range: (nat, nat), page: int)
    ensures
        covered(ranges.push(range), page) <==> covered(ranges, page) || range.0 <= page <= range.1,
{
    let all = ranges.push(range);
    if covered(ranges, page) {
        let i = choose|i: int|
            0 <= i < ranges.len() && (#[trigger] ranges[i]).0 <= page <= ranges[i].1;
        assert(all[i] == ranges[i]);
    }
    if range.0 <= page <= range.1 {
        assert(all[ranges.len() as int] == range);
    }
    if covered(all, page) {
        let i = choose|i: int| 0 <= i < all.len() && (#[trigger] all[i]).0 <= page <= all[i].1;
        if i < ranges.len() {
            assert(ranges[i] == all[i]);
        }
    }
}

proof fn lemma_parts_err(parts: Seq<Seq<char>>, i: int, n_pages: nat)
    requires
        0 <= i <= parts.len(),
        part_ranges(parts.take(i), n_pages) is Err,
    ensures
        part_ranges(parts, n_pages) == part_ranges(parts.take(i), n_pages),
    decreases parts.len() - i,
{
    if i < parts.len() {
        assert(parts.take(i + 1).drop_last() == parts.take(i));
        lemma_parts_err(parts, i + 1, n_pages);
    } else {
        assert(parts.take(i) == parts);
    }
}

proof fn lemma_ranges_valid(parts: Seq<Seq<char>>, n_pages: nat)
    ensures
        part_ranges(parts, n_pages) matches Ok(ranges) ==> within(ranges, n_pages),
    decreases parts.len(),
{
    if parts.len() > 0 {
        lemma_ranges_valid(parts.drop_last(), n_pages);
    }
}

/// Reads a page selection such as `"1-3,5,8-10"`, with pages counted from 1,
/// for a document of `n_pages` pages. The result lists the selected pages
/// counted from 0, in ascending order and each once.
pub fn parse_page_ranges(input: &str, n_pages: u32) -> (r: Result<Vec<u32>, String>)
    ensures
        match selected_ranges(input@, n_pages as nat) {
            Err(e) => r matches Err(t) && t@ == e,
            Ok(ranges) => if ranges.len() == 0 {
                r matches Err(t) && t@ == "no pages specified"@
            } else {
                r matches Ok(v) && ascending(v@) && v@.len() > 0 && forall|p: u32|
                    #[trigger] v@.contains(p) <==> covered(ranges, p + 1)
            },
        },
        r matches Ok(v) ==> forall|k: int| 0 <= k < v@.len() ==> #[trigger] v@[k] < n_pages,
{
    let parts = split_on(&chars_of(input), ',');
    let mut seen: Vec<u32> = Vec::new();
    let mut i: usize = 0;
    let ghost mut ranges = Seq::<(nat, nat)>::empty();
    while i < parts.len()
        invariant
            i <= parts@.len(),
            texts(parts@) == pieces(input@, ','),
            part_ranges(texts(parts@).take(i as int), n_pages as nat) == Ok::<_, Seq<char>>(ranges),
            ascending(seen@),
            forall|p: u32| #[trigger] seen@.contains(p) <==> covered(ranges, p + 1),
        decreases parts@.len() - i,
    {
        let part = trim(&parts[i]);
        proof {
            assert(texts(parts@)[i as int] == parts@[i as int]@);
            assert(texts(parts@).take(i + 1).drop_last() == texts(parts@).take(i as int));
        }
        if part.len() > 0 {
            let (start, end): (u32, u32) = match parse_part(&part, n_pages) {
                Ok(range) => range,
                Err(e) => {
                    proof {
                        lemma_parts_err(texts(parts@), i + 1, n_pages as nat);
                    }
                    return Err(e);
                },
            };
            let ghost before = ranges;
            let ghost range = (start as nat, end as nat);
            let mut page: u64 = start as u64;
            while page <= end as u64
                invariant
                    1 <= start <= page <= end + 1,
                    range == (start as nat, end as nat),
                    ascending(seen@),
                    forall|p: u32| #[trigger]
                        seen@.contains(p) <==> covered(before, p + 1) || start <= p + 1 < page,
                decreases end + 1 - page,
            {
                insert_page(&mut seen, (page - 1) as u32);
                page = page + 1;
            }
            proof {
                ranges = before.push(range);
                assert forall|p: u32| #[trigger] seen@.contains(p) <==> covered(ranges, p + 1) by {
                    lemma_covered_push(before, range, p + 1);
                }
            }
        }
        i = i + 1;
    }
    assert(texts(parts@).take(parts@.len() as int) == texts(parts@));
    proof {
        lemma_ranges_valid(texts(parts@), n_pages as nat);
        if ranges.len() > 0 {
            let first = (ranges[0].0 - 1) as u32;
            assert(first + 1 == ranges[0].0);
            assert(covered(ranges, first + 1));
            assert(seen@.contains(first));
        } else if seen@.len() > 0 {
            assert(seen@.contains(seen@[0]));
        }
    }
    if seen.len() == 0 {
        return Err("no pages specified".to_string());
    }
    proof {
        assert forall|k: int| 0 <= k < seen@.len() implies #[trigger] seen@[k] < n_pages by {
            assert(seen@.contains(seen@[k]));
        }
    }
    Ok(seen)
}

// ---------------------------------------------------------------------------
// Operations on page lists
// ---------------------------------------------------------------------------

/// What is said of a page that a document does not have.
pub open spec fn out_of_range(idx: nat) -> Seq<char> {
    "page "@ + decimal(idx) + " out of range"@
}

/// The pages of `pages` at the positions `indices`, in the order of `indices`.
pub open spec fn picked(pages: Seq<int>, indices: Seq<u32>) -> Seq<int> {
    indices.map_values(|i: u32| pages[i as int])
}

/// Whether every position in `indices` is one of `0..n`.
pub open spec fn in_range(indices: Seq<u32>, n: nat) -> bool {
    forall|k: int| 0 <= k < indices.len() ==> #[trigger] indices[k] < n
}

/// Whether `indices` holds the position `i`.
pub open spec fn selects(indices: Seq<u32>, i: int) -> bool {
    exists|k: int| 0 <= k < indices.len() && #[trigger] indices[k] == i
}

/// The pages of `pages` at the positions that `indices` does not hold.
pub open spec fn remaining<A>(pages: Seq<A>, indices: Seq<u32>) -> Seq<A>
    decreases pages.len(),
{
    if pages.len() == 0 {
        Seq::empty()
    } else {
        let before = remaining(pages.drop_last(), indices);
        if selects(indices, pages.len() - 1) {
            before
        } else {
            before.push(pages.last())
        }
    }
}

/// `pages` with `inserted` from position `at` on, or at the end, where `pages`
/// ends before that position.
pub open spec fn spliced(pages: Seq<int>, inserted: Seq<int>, at: nat) -> Seq<int> {
    if at >= pages.len() {
        pages + inserted
    } else {
        pages.take(at as int) + inserted + pages.skip(at as int)
    }
}

/// What is said of bytes that are no PDF file, or one whose page tree cannot be
/// walked.
pub open spec fn refused(bytes: Seq<u8>) -> Option<Seq<char>> {
    match pdf_error(bytes) {
        Some(e) => Some(e),
        None => pages_error(bytes),
    }
}

/// Whether `bytes` are a regular PDF file, whose page tree can be walked.
pub open spec fn readable(bytes: Seq<u8>) -> bool {
    refused(bytes) is None && !irregular(bytes)
}

/// Whether `out` is a file that holds the pages `pages`, and beside them what the
/// file in `bytes` holds. Its pages can be changed where those of `bytes` can.
pub open spec fn rewritten(bytes: Seq<u8>, out: Seq<u8>, pages: Seq<int>) -> bool {
    &&& readable(out)
    &&& pdf_pages(out) == pages
    &&& pdf_rest(out) == pdf_rest(bytes)
    &&& tree_faults(bytes) == Set::<Seq<char>>::empty() ==> tree_faults(out) == Set::<
        Seq<char>,
    >::empty()
}

/// Whether `out` is a file that `qpdf` writes of a document made from `files` that
/// has the pages `pages`, and `beside` beside them.
pub open spec fn is_written(
    files: Set<Seq<u8>>,
    pages: Seq<int>,
    beside: int,
    out: Seq<u8>,
) -> bool {
    exists|drawn: Seq<u8>| out == #[trigger] written_file(files, pages, beside, drawn)
}

/// The first position from `from` on that `indices` holds and that is none of
/// `0..n`.
pub open spec fn first_beyond(indices: Seq<u32>, n: nat, from: int) -> Option<u32>
    decreases indices.len() - from,
{
    if from >= indices.len() {
        None
    } else if indices[from] >= n {
        Some(indices[from])
    } else {
        first_beyond(indices, n, from + 1)
    }
}

/// Whether `t` is what is said of the first position in `indices` that a document
/// of `n` pages does not have.
pub open spec fn names_beyond(indices: Seq<u32>, n: nat, t: Seq<char>) -> bool {
    match first_beyond(indices, n, 0) {
        Some(i) => t == out_of_range(i as nat),
        None => false,
    }
}

proof fn lemma_first_beyond(indices: Seq<u32>, n: nat, from: int, k: int)
    requires
        0 <= from <= k < indices.len(),
        indices[k] >= n,
        forall|m: int| from <= m < k ==> #[trigger] indices[m] < n,
    ensures
        first_beyond(indices, n, from) == Some(indices[k]),
    decreases k - from,
{
    if from < k {
        lemma_first_beyond(indices, n, from + 1, k);
    }
}

proof fn lemma_one_file(bytes: Seq<u8>)
    ensures
        sound(set![bytes]) <==> !irregular(bytes),
{
    assert(set![bytes].contains(bytes));
}

/// What is said of a page that a document does not have.
pub fn out_of_range_text(idx: u32) -> (r: String)
    ensures
        r@ == out_of_range(idx as nat),
{
    let mut v = chars_of("page ");
    push_text(&mut v, &format_u64(idx as u64));
    push_text(&mut v, &chars_of(" out of range"));
    string_of(&v)
}

/// Writes the document in `bytes` anew, with its streams compressed and its
/// objects in object streams. What a regular file holds stays what it is.
pub fn compress(bytes: &[u8]) -> (r: Result<Vec<u8>, String>)
    ensures
        pdf_error(bytes@) matches Some(e) ==> r matches Err(t) && t@ == e,
        pdf_error(bytes@) is None ==> match r {
            Ok(out) => compress_error(bytes@) is None && exists|drawn: Seq<u8>|
                out@ == #[trigger] compressed_file(bytes@, drawn),
            Err(t) => compress_error(bytes@) == Some(t@),
        },
        r matches Ok(out) ==> !irregular(bytes@) ==> pdf_error(out@) is None && !irregular(out@)
            && pdf_rest(out@) == pdf_rest(bytes@),
        r matches Ok(out) ==> readable(bytes@) ==> rewritten(bytes@, out@, pdf_pages(bytes@)),
{
    let doc = match read_document(bytes) {
        Ok(doc) => doc,
        Err(e) => {
            return Err(e);
        },
    };
    proof {
        lemma_one_file(bytes@);
    }
    write_compressed(doc)
}

/// Whether `sorted` lists the positions that `indices` holds, ascending and
/// each once.
pub open spec fn sorted_selection(sorted: Seq<u32>, indices: Seq<u32>) -> bool {
    ascending(sorted) && forall|i: u32| #[trigger] sorted.contains(i) <==> indices.contains(i)
}

/// The position `idx` in a list of `n_pages` pages, or what is said of a page
/// that is not there.
pub fn page_position(idx: u32, n_pages: usize) -> (r: Result<usize, String>)
    ensures
        idx < n_pages ==> r == Ok::<usize, String>(idx as usize),
        idx >= n_pages ==> (r matches Err(t) && t@ == out_of_range(idx as nat)),
{
    if (idx as u64) < (n_pages as u64) {
        Ok(idx as usize)
    } else {
        Err(out_of_range_text(idx))
    }
}

/// The positions to delete from a list of `n_pages` pages, ascending and each
/// once, unless they are as many as the pages.
pub fn plan_deletion(indices: &[u32], n_pages: usize) -> (r: Result<Vec<u32>, String>)
    ensures
        exists|sorted: Seq<u32>| #[trigger] sorted_selection(sorted, indices@),
        forall|sorted: Seq<u32>| #[trigger]
            sorted_selection(sorted, indices@) ==> if sorted.len() >= n_pages {
                r matches Err(t) && t@ == "cannot delete every page of the document"@
            } else {
                r matches Ok(v) && v@ == sorted
            },
{
    let mut sorted: Vec<u32> = Vec::new();
    let mut i: usize = 0;
    while i < indices.len()
        invariant
            i <= indices@.len(),
            ascending(sorted@),
            forall|p: u32| #[trigger] sorted@.contains(p) <==> indices@.take(i as int).contains(p),
        decreases indices@.len() - i,
    {
        insert_page(&mut sorted, indices[i]);
        proof {
            let now = indices@.take(i + 1);
            let before = indices@.take(i as int);
            assert(now == before.push(indices@[i as int]));
            assert forall|p: u32| #[trigger] sorted@.contains(p) <==> now.contains(p) by {
                if before.contains(p) {
                    assert(now[before.index_of(p)] == p);
                }
                if p == indices@[i as int] {
                    assert(now[i as int] == p);
                }
                if now.contains(p) && p != indices@[i as int] {
                    assert(before[now.index_of(p)] == p);
                }
            }
        }
        i = i + 1;
    }
    proof {
        assert(indices@.take(indices@.len() as int) == indices@);
        assert(sorted_selection(sorted@, indices@));
        assert forall|other: Seq<u32>| #[trigger] sorted_selection(other, indices@) implies other
            == sorted@ by {
            ascending_lists_agree(other, sorted@);
        }
    }
    if sorted.len() >= n_pages {
        return Err("cannot delete every page of the document".to_string());
    }
    Ok(sorted)
}

proof fn lemma_remaining_members<A>(pages: Seq<A>, indices: Seq<u32>, i: int)
    requires
        0 <= i < remaining(pages, indices).len(),
    ensures
        exists|j: int| 0 <= j < pages.len() && #[trigger] pages[j] == remaining(pages, indices)[i],
    decreases pages.len(),
{
    let before = remaining(pages.drop_last(), indices);
    if i < before.len() {
        lemma_remaining_members(pages.drop_last(), indices, i);
        let j = choose|j: int|
            0 <= j < pages.drop_last().len() && #[trigger] pages.drop_last()[j] == before[i];
        assert(pages[j] == before[i]);
    } else {
        assert(pages[pages.len() - 1] == remaining(pages, indices)[i]);
    }
}

proof fn lemma_remaining_beyond<A>(pages: Seq<A>, indices: Seq<u32>, s: u32)
    requires
        s >= pages.len(),
    ensures
        remaining(pages, indices.push(s)) == remaining(pages, indices),
    decreases pages.len(),
{
    if pages.len() > 0 {
        lemma_remaining_beyond(pages.drop_last(), indices, s);
        lemma_selects_push(indices, s, pages.len() - 1);
    }
}

proof fn lemma_selects_push(indices: Seq<u32>, s: u32, i: int)
    ensures
        selects(indices.push(s), i) <==> selects(indices, i) || i == s,
{
    let all = indices.push(s);
    if selects(indices, i) {
        let k = choose|k: int| 0 <= k < indices.len() && #[trigger] indices[k] == i;
        assert(all[k] == i);
    }
    if i == s {
        assert(all[indices.len() as int] == i);
    }
    if selects(all, i) {
        let k = choose|k: int| 0 <= k < all.len() && #[trigger] all[k] == i;
        if k < indices.len() {
            assert(indices[k] == i);
        }
    }
}

proof fn lemma_remove_one(all: Seq<(int, int)>, indices: Seq<u32>, s: u32, i: int)
    requires
        distinct(all),
        s < all.len(),
        !selects(indices, s as int),
        0 <= i < remaining(all, indices).len(),
        remaining(all, indices)[i] == all[s as int],
    ensures
        remaining(all, indices).remove(i) == remaining(all, indices.push(s)),
    decreases all.len(),
{
    let n = all.len() - 1;
    let rest = all.drop_last();
    let before = remaining(rest, indices);
    lemma_selects_push(indices, s, n);
    if s == n {
        lemma_remaining_beyond(rest, indices, s);
        if i < before.len() {
            lemma_remaining_members(rest, indices, i);
            let j = choose|j: int| 0 <= j < rest.len() && #[trigger] rest[j] == before[i];
            assert(all[j].0 != all[n].0);
        }
        assert(before.push(all.last()).remove(i) == before);
    } else {
        assert(rest[s as int] == all[s as int]);
        assert(distinct(rest));
        if selects(indices, n) {
            lemma_remove_one(rest, indices, s, i);
        } else {
            if i == before.len() {
                assert(all[s as int].0 != all[n].0);
            }
            assert(i < before.len());
            lemma_remove_one(rest, indices, s, i);
            assert(before.push(all.last()).remove(i) == before.remove(i).push(all.last()));
        }
    }
}

proof fn lemma_remaining_contents(all: Seq<(int, int)>, indices: Seq<u32>)
    ensures
        contents(remaining(all, indices)) == remaining(contents(all), indices),
    decreases all.len(),
{
    if all.len() > 0 {
        lemma_remaining_contents(all.drop_last(), indices);
        assert(contents(all).drop_last() == contents(all.drop_last()));
        let before = remaining(all.drop_last(), indices);
        assert(contents(before.push(all.last())) == contents(before).push(all.last().1));
    } else {
        assert(contents(remaining(all, indices)) == remaining(contents(all), indices));
    }
}

proof fn lemma_remaining_same<A>(pages: Seq<A>, a: Seq<u32>, b: Seq<u32>)
    requires
        forall|i: u32| #[trigger] a.contains(i) <==> b.contains(i),
    ensures
        remaining(pages, a) == remaining(pages, b),
    decreases pages.len(),
{
    if pages.len() > 0 {
        lemma_remaining_same(pages.drop_last(), a, b);
        let n = pages.len() - 1;
        if selects(a, n) {
            let k = choose|k: int| 0 <= k < a.len() && #[trigger] a[k] == n;
            assert(a.contains(a[k]));
            assert(b.contains(a[k]));
            assert(b[b.index_of(a[k])] == n);
        }
        if selects(b, n) {
            let k = choose|k: int| 0 <= k < b.len() && #[trigger] b[k] == n;
            assert(b.contains(b[k]));
            assert(a.contains(b[k]));
            assert(a[a.index_of(b[k])] == n);
        }
    }
}

proof fn lemma_remaining_none<A>(pages: Seq<A>)
    ensures
        remaining(pages, Seq::empty()) == pages,
    decreases pages.len(),
{
    if pages.len() > 0 {
        lemma_remaining_none(pages.drop_last());
        assert(pages == pages.drop_last().push(pages.last()));
    }
}

proof fn lemma_remaining_len<A>(pages: Seq<A>, sorted: Seq<u32>)
    requires
        ascending(sorted),
    ensures
        remaining(pages, sorted).len() + sorted.len() >= pages.len(),
    decreases pages.len(),
{
    if pages.len() > 0 {
        let n = pages.len() - 1;
        if selects(sorted, n) {
            let k = choose|k: int| 0 <= k < sorted.len() && #[trigger] sorted[k] == n;
            let below = sorted.take(k);
            lemma_remaining_len(pages.drop_last(), below);
            lemma_remaining_below(pages.drop_last(), sorted, k);
        } else {
            lemma_remaining_len(pages.drop_last(), sorted);
        }
    }
}

proof fn lemma_remaining_below<A>(pages: Seq<A>, sorted: Seq<u32>, k: int)
    requires
        ascending(sorted),
        0 <= k <= sorted.len(),
        forall|m: int| k <= m < sorted.len() ==> sorted[m] >= pages.len(),
    ensures
        remaining(pages, sorted) == remaining(pages, sorted.take(k)),
    decreases pages.len(),
{
    if pages.len() > 0 {
        lemma_remaining_below(pages.drop_last(), sorted, k);
        let n = pages.len() - 1;
        if selects(sorted, n) {
            let m = choose|m: int| 0 <= m < sorted.len() && #[trigger] sorted[m] == n;
            assert(sorted.take(k)[m] == n);
        }
        if selects(sorted.take(k), n) {
            let m = choose|m: int| 0 <= m < k && #[trigger] sorted.take(k)[m] == n;
            assert(sorted[m] == n);
        }
    }
}

proof fn lemma_remaining_holds<A>(pages: Seq<A>, indices: Seq<u32>, i: int)
    requires
        0 <= i < pages.len(),
        !selects(indices, i),
    ensures
        remaining(pages, indices).contains(pages[i]),
    decreases pages.len(),
{
    let before = remaining(pages.drop_last(), indices);
    let all = remaining(pages, indices);
    if i == pages.len() - 1 {
        assert(all[before.len() as int] == pages[i]);
    } else {
        lemma_remaining_holds(pages.drop_last(), indices, i);
        let k = choose|k: int| 0 <= k < before.len() && #[trigger] before[k] == pages[i];
        assert(before.contains(pages.drop_last()[i]));
        assert(all[before.index_of(pages[i])] == pages[i]);
    }
}

/// What comes of deleting the positions `sorted`, ascending and each once, from
/// the document in `bytes`, which can be read: where it fails, `sorted` covers
/// the document or leaves it, or `qpdf` has refused to change its pages or to
/// write what is left.
pub open spec fn deletion(bytes: Seq<u8>, sorted: Seq<u32>, r: Result<Vec<u8>, String>) -> bool {
    let pages = pdf_pages(bytes);
    let left = remaining(pages, sorted);
    if sorted.len() >= pages.len() {
        r matches Err(t) && t@ == "cannot delete every page of the document"@
    } else if sorted.len() > 0 && sorted[0] >= pages.len() {
        r matches Err(t) && t@ == out_of_range(sorted[0] as nat)
    } else {
        match r {
            Ok(out) => {
                &&& in_range(sorted, pages.len())
                &&& left.len() > 0
                &&& is_written(set![bytes], left, pdf_rest(bytes), out@)
                &&& !irregular(bytes) ==> rewritten(bytes, out@, left) && (sorted.len() > 0
                    ==> tree_faults(bytes) == Set::<Seq<char>>::empty())
            },
            Err(t) => {
                ||| sorted.len() > 0 && tree_faults(bytes).contains(t@)
                ||| names_beyond(sorted, pages.len(), t@)
                ||| in_range(sorted, pages.len()) && writing_faults(set![bytes], left).contains(t@)
            },
        }
    }
}

/// Takes the pages at the positions `indices`, counted from 0, out of the
/// document in `bytes`. Refuses to take out every page.
pub fn delete_pages(bytes: &[u8], indices: &[u32]) -> (r: Result<Vec<u8>, String>)
    ensures
        refused(bytes@) matches Some(e) ==> r matches Err(t) && t@ == e,
        refused(bytes@) is None ==> forall|sorted: Seq<u32>| #[trigger]
            sorted_selection(sorted, indices@) ==> deletion(bytes@, sorted, r),
        r matches Ok(out) ==> in_range(indices@, pdf_pages(bytes@).len()),
        r matches Ok(out) ==> !irregular(bytes@) ==> pdf_pages(out@) == remaining(
            pdf_pages(bytes@),
            indices@,
        ),
{
    let mut doc = match read_document(bytes) {
        Ok(doc) => doc,
        Err(e) => {
            return Err(e);
        },
    };
    let pages = match get_pages(&mut doc) {
        Ok(pages) => pages,
        Err(e) => {
            return Err(e);
        },
    };
    proof {
        lemma_one_file(bytes@);
        assert(entries(pages@).len() == pages@.len());
        assert(contents(page_list(doc)).len() == page_list(doc).len());
    }
    let sorted = match plan_deletion(indices, pages.len()) {
        Ok(sorted) => sorted,
        Err(e) => {
            return Err(e);
        },
    };
    let ghost all = page_list(doc);
    let mut k: usize = 0;
    proof {
        lemma_remaining_none(all);
        assert(sorted@.take(0) == Seq::<u32>::empty());
    }
    while k < sorted.len()
        invariant
            k <= sorted@.len(),
            refused(bytes@) is None,
            sound(set![bytes@]) <==> !irregular(bytes@),
            contents(all) == pdf_pages(bytes@),
            all.len() == pages@.len(),
            ready(doc),
            files(doc) == set![bytes@],
            rest(doc) == pdf_rest(bytes@),
            k == 0 ==> change_faults(doc) == tree_faults(bytes@),
            k > 0 ==> change_faults(doc) == Set::<Seq<char>>::empty(),
            k > 0 && !irregular(bytes@) ==> tree_faults(bytes@) == Set::<Seq<char>>::empty(),
            ascending(sorted@),
            sorted@.len() < all.len(),
            forall|other: Seq<u32>| #[trigger]
                sorted_selection(other, indices@) ==> other == sorted@,
            distinct(all),
            entries(pages@) == all,
            forall|i: int| 0 <= i < pages@.len() ==> owner(#[trigger] pages@[i]) == number(doc),
            page_list(doc) == remaining(all, sorted@.take(k as int)),
            forall|m: int| 0 <= m < k ==> #[trigger] sorted@[m] < all.len(),
        decreases sorted@.len() - k,
    {
        let idx: u32 = sorted[k];
        let pos: usize = match page_position(idx, pages.len()) {
            Ok(pos) => pos,
            Err(e) => {
                proof {
                    lemma_first_beyond(sorted@, all.len(), 0, k as int);
                }
                return Err(e);
            },
        };
        let ghost list = page_list(doc);
        let ghost taken = sorted@.take(k as int);
        proof {
            assert(entries(pages@)[pos as int] == page_entry(pages@[pos as int]));
            assert(!selects(taken, idx as int)) by {
                if selects(taken, idx as int) {
                    let m = choose|m: int| 0 <= m < taken.len() && #[trigger] taken[m] == idx;
                    assert(sorted@[m] < sorted@[k as int]);
                }
            }
            lemma_remaining_holds(all, taken, idx as int);
        }
        let removed = remove_page(&mut doc, &pages[pos]);
        match removed {
            Ok(_) => {},
            Err(e) => {
                return Err(e);
            },
        }
        proof {
            let i = choose|i: int|
                0 <= i < list.len() && #[trigger] list[i] == all[idx as int] && page_list(doc)
                    == list.remove(i);
            lemma_remove_one(all, taken, idx, i);
            assert(sorted@.take(k + 1) == taken.push(idx));
        }
        k = k + 1;
    }
    proof {
        assert(sorted@.take(sorted@.len() as int) == sorted@);
        lemma_remaining_contents(all, sorted@);
        assert(sorted_selection(sorted@, indices@));
        lemma_remaining_same(contents(all), sorted@, indices@);
        assert forall|m: int| 0 <= m < indices@.len() implies #[trigger] indices@[m]
            < all.len() by {
            assert(indices@.contains(indices@[m]));
            assert(sorted@.contains(indices@[m]));
        }
        lemma_remaining_len(contents(all), sorted@);
    }
    write_document(doc)
}

proof fn lemma_contents_push(list: Seq<(int, int)>, page: (int, int))
    ensures
        contents(list.push(page)) == contents(list).push(page.1),
{
    assert(contents(list.push(page)) =~= contents(list).push(page.1));
}

/// Whether `t` is a text with which `qpdf` can refuse to add a page to a document
/// whose page tree is not at fault: one of copying it from another document.
spec fn insertion_fault(doc: QPdf, page: QPdfDictionary, t: Seq<char>) -> bool {
    owner(page) != number(doc) && copy_faults(page_files(page), page_entry(page).1).contains(t)
}

/// Appends the pages of `pages` at the positions `indices` to a document.
fn append_pages(doc: &mut QPdf, pages: &Vec<QPdfDictionary>, indices: &[u32]) -> (r: Result<
    (),
    String,
>)
    requires
        ready(*old(doc)),
        indices@.len() > 0 ==> change_faults(*old(doc)) == Set::<Seq<char>>::empty(),
        forall|i: int|
            0 <= i < pages@.len() ==> page_files(#[trigger] pages@[i]) == page_files(pages@[0]),
    ensures
        match r {
            Ok(_) => {
                &&& ready(*final(doc))
                &&& change_faults(*final(doc)) == change_faults(*old(doc))
                &&& rest(*final(doc)) == rest(*old(doc))
                &&& files(*final(doc)) == if indices@.len() == 0 {
                    files(*old(doc))
                } else {
                    files(*old(doc)).union(page_files(pages@[0]))
                }
                &&& in_range(indices@, pages@.len())
                &&& contents(page_list(*final(doc))) == contents(page_list(*old(doc))) + picked(
                    contents(entries(pages@)),
                    indices@,
                )
            },
            Err(t) => {
                ||| names_beyond(indices@, pages@.len(), t@)
                ||| exists|k: int|
                    0 <= k < indices@.len() && #[trigger] indices@[k] < pages@.len()
                        && insertion_fault(*old(doc), pages@[indices@[k] as int], t@)
            },
        },
        indices@.len() > 0 && indices@[0] >= pages@.len() ==> (r matches Err(t) && t@
            == out_of_range(indices@[0] as nat)),
{
    let ghost before = *doc;
    let ghost start = contents(page_list(*doc));
    let ghost all = contents(entries(pages@));
    let mut k: usize = 0;
    assert(picked(all, indices@.take(0)) == Seq::<int>::empty());
    while k < indices.len()
        invariant
            k <= indices@.len(),
            ready(*doc),
            indices@.len() > 0 ==> change_faults(before) == Set::<Seq<char>>::empty(),
            change_faults(*doc) == change_faults(before),
            rest(*doc) == rest(before),
            number(*doc) == number(before),
            files(*doc) == if k == 0 {
                files(before)
            } else {
                files(before).union(page_files(pages@[0]))
            },
            forall|i: int|
                0 <= i < pages@.len() ==> page_files(#[trigger] pages@[i]) == page_files(pages@[0]),
            all == contents(entries(pages@)),
            contents(page_list(*doc)) == start + picked(all, indices@.take(k as int)),
            forall|m: int| 0 <= m < k ==> #[trigger] indices@[m] < pages@.len(),
            before == *old(doc),
        decreases indices@.len() - k,
    {
        let idx: u32 = indices[k];
        let pos: usize = match page_position(idx, pages.len()) {
            Ok(pos) => pos,
            Err(e) => {
                proof {
                    lemma_first_beyond(indices@, pages@.len(), 0, k as int);
                }
                return Err(e);
            },
        };
        let ghost list = page_list(*doc);
        let ghost here = files(*doc);
        let added = add_page(doc, &pages[pos]);
        match added {
            Ok(_) => {},
            Err(e) => {
                assert(insertion_fault(before, pages@[indices@[k as int] as int], e@));
                return Err(e);
            },
        }
        proof {
            let page = page_entry(pages@[pos as int]).1;
            assert(all[pos as int] == page);
            let id = choose|id: int| page_list(*doc) == #[trigger] list.push((id, page));
            lemma_contents_push(list, (id, page));
            assert(indices@.take(k + 1) == indices@.take(k as int).push(idx));
            assert(picked(all, indices@.take(k + 1)) == picked(all, indices@.take(k as int)).push(
                page,
            ));
            assert(here.union(page_files(pages@[0])) == files(before).union(page_files(pages@[0])));
        }
        k = k + 1;
    }
    assert(indices@.take(indices@.len() as int) == indices@);
    Ok(())
}

/// What comes of putting the pages of the document in `bytes` into the order
/// `order`: where it fails, the file cannot be read, `order` does not fit the
/// document, or `qpdf` has refused to change its pages or to write the result.
pub open spec fn reordering(bytes: Seq<u8>, order: Seq<u32>, r: Result<Vec<u8>, String>) -> bool {
    let pages = pdf_pages(bytes);
    match refused(bytes) {
        Some(e) => r matches Err(t) && t@ == e,
        None => if order.len() != pages.len() {
            r matches Err(t) && t@ == "page order does not match the document's page count"@
        } else {
            match r {
                Ok(out) => {
                    &&& in_range(order, pages.len())
                    &&& is_written(set![bytes], picked(pages, order), pdf_rest(bytes), out@)
                    &&& !irregular(bytes) ==> rewritten(bytes, out@, picked(pages, order)) && (
                    pages.len() > 0 ==> tree_faults(bytes) == Set::<Seq<char>>::empty())
                },
                Err(t) => {
                    ||| pages.len() > 0 && tree_faults(bytes).contains(t@)
                    ||| names_beyond(order, pages.len(), t@)
                    ||| in_range(order, pages.len()) && writing_faults(
                        set![bytes],
                        picked(pages, order),
                    ).contains(t@)
                },
            }
        },
    }
}

/// Puts the pages of the document in `bytes` into the order `new_order`: the
/// page at each place is the one at the position that `new_order` holds there,
/// counted from 0 in the order as it was.
pub fn reorder_pages(bytes: &[u8], new_order: &[u32]) -> (r: Result<Vec<u8>, String>)
    ensures
        reordering(bytes@, new_order@, r),
{
    let mut doc = match read_document(bytes) {
        Ok(doc) => doc,
        Err(e) => {
            return Err(e);
        },
    };
    let pages = match get_pages(&mut doc) {
        Ok(pages) => pages,
        Err(e) => {
            return Err(e);
        },
    };
    proof {
        lemma_one_file(bytes@);
        assert(entries(pages@).len() == pages@.len());
        assert(contents(page_list(doc)).len() == page_list(doc).len());
    }
    match check_order(new_order.len(), pages.len()) {
        Ok(_) => {},
        Err(e) => {
            return Err(e);
        },
    }
    let ghost all = page_list(doc);
    let mut k: usize = 0;
    assert(all.skip(0) == all);
    while k < pages.len()
        invariant
            k <= pages@.len(),
            new_order@.len() == pages@.len(),
            refused(bytes@) is None,
            sound(set![bytes@]) <==> !irregular(bytes@),
            contents(all) == pdf_pages(bytes@),
            pdf_pages(bytes@).len() == pages@.len(),
            ready(doc),
            files(doc) == set![bytes@],
            rest(doc) == pdf_rest(bytes@),
            k == 0 ==> change_faults(doc) == tree_faults(bytes@),
            k > 0 ==> change_faults(doc) == Set::<Seq<char>>::empty(),
            k > 0 && !irregular(bytes@) ==> tree_faults(bytes@) == Set::<Seq<char>>::empty(),
            distinct(all),
            entries(pages@) == all,
            forall|i: int|
                0 <= i < pages@.len() ==> owner(#[trigger] pages@[i]) == number(doc) && page_files(
                    pages@[i],
                ) == set![bytes@],
            page_list(doc) == all.skip(k as int),
        decreases pages@.len() - k,
    {
        let ghost list = page_list(doc);
        proof {
            assert(all[k as int] == page_entry(pages@[k as int]));
            assert(list[0] == all[k as int]);
        }
        let removed = remove_page(&mut doc, &pages[k]);
        match removed {
            Ok(_) => {},
            Err(e) => {
                return Err(e);
            },
        }
        proof {
            let i = choose|i: int|
                0 <= i < list.len() && #[trigger] list[i] == all[k as int] && page_list(doc)
                    == list.remove(i);
            assert(list[i] == all[k + i]);
            assert(i == 0);
            assert(list.remove(0) == all.skip(k + 1));
        }
        k = k + 1;
    }
    assert(contents(page_list(doc)) == Seq::<int>::empty());
    let appended = append_pages(&mut doc, &pages, new_order);
    match appended {
        Ok(_) => {},
        Err(e) => {
            return Err(e);
        },
    }
    assert(set![bytes@].union(set![bytes@]) == set![bytes@]);
    assert(Seq::<int>::empty() + picked(contents(all), new_order@) == picked(
        contents(all),
        new_order@,
    ));
    write_document(doc)
}

/// Whether `t` is a text with which `qpdf` can refuse to copy one of the pages at
/// the positions `indices` out of the document in `bytes`.
pub open spec fn copying_fault(bytes: Seq<u8>, indices: Seq<u32>, t: Seq<char>) -> bool {
    exists|k: int|
        0 <= k < indices.len() && #[trigger] indices[k] < pdf_pages(bytes).len() && copy_faults(
            set![bytes],
            pdf_pages(bytes)[indices[k] as int],
        ).contains(t)
}

/// What comes of extracting the pages at the positions `indices` from the
/// document in `bytes`: where it fails, none are asked for, the file cannot be
/// read or does not have one of them, or `qpdf` has refused to copy one or to
/// write the result.
pub open spec fn extraction(bytes: Seq<u8>, indices: Seq<u32>, r: Result<Vec<u8>, String>) -> bool {
    let pages = pdf_pages(bytes);
    if indices.len() == 0 {
        r matches Err(t) && t@ == "no pages selected"@
    } else {
        match refused(bytes) {
            Some(e) => r matches Err(t) && t@ == e,
            None => if indices[0] >= pages.len() {
                r matches Err(t) && t@ == out_of_range(indices[0] as nat)
            } else {
                match r {
                    Ok(out) => {
                        &&& in_range(indices, pages.len())
                        &&& is_written(set![bytes], picked(pages, indices), 0, out@)
                        &&& !irregular(bytes) ==> readable(out@) && pdf_pages(out@) == picked(
                            pages,
                            indices,
                        ) && pdf_rest(out@) == 0 && tree_faults(out@) == Set::<Seq<char>>::empty()
                    },
                    Err(t) => {
                        ||| names_beyond(indices, pages.len(), t@)
                        ||| copying_fault(bytes, indices, t@)
                        ||| in_range(indices, pages.len()) && writing_faults(
                            set![bytes],
                            picked(pages, indices),
                        ).contains(t@)
                    },
                }
            },
        }
    }
}

/// A new document of the pages at the positions `indices` of the document in
/// `bytes`, counted from 0, in the order of `indices`.
pub fn extract_pages(bytes: &[u8], indices: &[u32]) -> (r: Result<Vec<u8>, String>)
    ensures
        extraction(bytes@, indices@, r),
{
    if indices.len() == 0 {
        return Err("no pages selected".to_string());
    }
    let mut src = match read_document(bytes) {
        Ok(doc) => doc,
        Err(e) => {
            return Err(e);
        },
    };
    let pages = match get_pages(&mut src) {
        Ok(pages) => pages,
        Err(e) => {
            return Err(e);
        },
    };
    let mut dest = empty_document();
    proof {
        lemma_one_file(bytes@);
        assert(entries(pages@).len() == pages@.len());
        assert(contents(page_list(src)).len() == page_list(src).len());
        assert(contents(page_list(dest)) == Seq::<int>::empty());
        assert(Set::<Seq<u8>>::empty().union(set![bytes@]) == set![bytes@]);
        assert(Seq::<int>::empty() + picked(pdf_pages(bytes@), indices@) == picked(
            pdf_pages(bytes@),
            indices@,
        ));
        assert forall|i: int| 0 <= i < pages@.len() implies page_entry(#[trigger] pages@[i]).1
            == pdf_pages(bytes@)[i] by {
            assert(entries(pages@)[i] == page_entry(pages@[i]));
            assert(contents(page_list(src))[i] == page_list(src)[i].1);
        }
    }
    let appended = append_pages(&mut dest, &pages, indices);
    match appended {
        Ok(_) => {},
        Err(e) => {
            return Err(e);
        },
    }
    write_document(dest)
}

/// Whether an order of `order_len` places fits a document of `n_pages` pages.
pub fn check_order(order_len: usize, n_pages: usize) -> (r: Result<(), String>)
    ensures
        order_len == n_pages ==> r is Ok,
        order_len != n_pages ==> (r matches Err(t) && t@
            == "page order does not match the document's page count"@),
{
    if order_len != n_pages {
        return Err("page order does not match the document's page count".to_string());
    }
    Ok(())
}

/// Whether a document of `n_pages` pages has any page to insert.
pub fn check_inserted(n_pages: usize) -> (r: Result<(), String>)
    ensures
        n_pages > 0 ==> r is Ok,
        n_pages == 0 ==> (r matches Err(t) && t@ == "the selected PDF has no pages"@),
{
    if n_pages == 0 {
        return Err("the selected PDF has no pages".to_string());
    }
    Ok(())
}

/// What is said where the document in `insert_bytes` cannot be inserted into
/// the one in `bytes`: both are read first; then the pages of the one to insert
/// are listed, of which there must be some; then those of the other.
pub open spec fn merge_refused(bytes: Seq<u8>, insert_bytes: Seq<u8>) -> Option<Seq<char>> {
    match pdf_error(bytes) {
        Some(e) => Some(e),
        None => match refused(insert_bytes) {
            Some(e) => Some(e),
            None => if pdf_pages(insert_bytes).len() == 0 {
                Some("the selected PDF has no pages"@)
            } else {
                pages_error(bytes)
            },
        },
    }
}

/// Whether `t` is a text with which `qpdf` can refuse to copy one of the pages of
/// the document in `bytes`.
pub open spec fn any_copying_fault(bytes: Seq<u8>, t: Seq<char>) -> bool {
    exists|k: int|
        0 <= k < pdf_pages(bytes).len() && copy_faults(
            set![bytes],
            #[trigger] pdf_pages(bytes)[k],
        ).contains(t)
}

/// What comes of inserting the document in `insert_bytes` into the one in
/// `bytes`: where it fails, one of them cannot be read or there is nothing to
/// insert, or `qpdf` has refused to change the pages, to copy one or to write
/// the result.
pub open spec fn merging(
    bytes: Seq<u8>,
    insert_bytes: Seq<u8>,
    at: nat,
    r: Result<Vec<u8>, String>,
) -> bool {
    let pages = spliced(pdf_pages(bytes), pdf_pages(insert_bytes), at);
    match merge_refused(bytes, insert_bytes) {
        Some(e) => r matches Err(t) && t@ == e,
        None => match r {
            Ok(out) => {
                &&& is_written(set![bytes, insert_bytes], pages, pdf_rest(bytes), out@)
                &&& !irregular(bytes) ==> tree_faults(bytes) == Set::<Seq<char>>::empty() && (
                !irregular(insert_bytes) ==> rewritten(bytes, out@, pages))
            },
            Err(t) => {
                ||| tree_faults(bytes).contains(t@)
                ||| any_copying_fault(insert_bytes, t@)
                ||| writing_faults(set![bytes, insert_bytes], pages).contains(t@)
            },
        },
    }
}

/// Inserts every page of the document in `insert_bytes` into the one in
/// `bytes`, from position `at_index` on, or at the end, where that position is
/// beyond the last page.
pub fn merge_pages(bytes: &[u8], insert_bytes: &[u8], at_index: u32) -> (r: Result<Vec<u8>, String>)
    ensures
        merging(bytes@, insert_bytes@, at_index as nat, r),
{
    let mut doc = match read_document(bytes) {
        Ok(doc) => doc,
        Err(e) => {
            return Err(e);
        },
    };
    let mut foreign = match read_document(insert_bytes) {
        Ok(doc) => doc,
        Err(e) => {
            return Err(e);
        },
    };
    let pages = match get_pages(&mut foreign) {
        Ok(pages) => pages,
        Err(e) => {
            return Err(e);
        },
    };
    let ghost mine = pdf_pages(bytes@);
    let ghost theirs = pdf_pages(insert_bytes@);
    proof {
        lemma_one_file(bytes@);
        assert(contents(entries(pages@)).len() == pages@.len());
        assert forall|i: int| 0 <= i < pages@.len() implies page_entry(#[trigger] pages@[i]).1
            == theirs[i] by {
            assert(entries(pages@)[i] == page_entry(pages@[i]));
            assert(contents(page_list(foreign))[i] == page_list(foreign)[i].1);
        }
    }
    match check_inserted(pages.len()) {
        Ok(_) => {},
        Err(e) => {
            return Err(e);
        },
    }
    let n_pages: u32 = match get_num_pages(&mut doc) {
        Ok(n) => n,
        Err(e) => {
            return Err(e);
        },
    };
    assert(contents(page_list(doc)).len() == page_list(doc).len());
    let ghost at = at_index as int;
    let mut k: usize = 0;
    if at_index >= n_pages {
        assert(mine + theirs.take(0) == mine);
        while k < pages.len()
            invariant
                k <= pages@.len(),
                merge_refused(bytes@, insert_bytes@) is None,
                sound(set![bytes@]) <==> !irregular(bytes@),
                ready(doc),
                rest(doc) == pdf_rest(bytes@),
                files(doc) == if k == 0 {
                    set![bytes@]
                } else {
                    set![bytes@, insert_bytes@]
                },
                k == 0 ==> change_faults(doc) == tree_faults(bytes@),
                k > 0 ==> change_faults(doc) == Set::<Seq<char>>::empty(),
                k > 0 && !irregular(bytes@) ==> tree_faults(bytes@) == Set::<Seq<char>>::empty(),
                theirs == pdf_pages(insert_bytes@),
                theirs.len() == pages@.len(),
                forall|i: int|
                    0 <= i < pages@.len() ==> page_files(#[trigger] pages@[i]) == set![insert_bytes@]
                        && page_entry(pages@[i]).1 == theirs[i],
                contents(page_list(doc)) == mine + theirs.take(k as int),
            decreases pages@.len() - k,
        {
            let ghost list = page_list(doc);
            let ghost here = files(doc);
            let added = add_page(&mut doc, &pages[k]);
            match added {
                Ok(_) => {},
                Err(e) => {
                    assert(tree_faults(bytes@).contains(e@) || copy_faults(
                        set![insert_bytes@],
                        theirs[k as int],
                    ).contains(e@));
                    return Err(e);
                },
            }
            proof {
                let page = page_entry(pages@[k as int]).1;
                let id = choose|id: int| page_list(doc) == #[trigger] list.push((id, page));
                lemma_contents_push(list, (id, page));
                assert(theirs.take(k + 1) == theirs.take(k as int).push(page));
                assert(here.union(set![insert_bytes@]) == set![bytes@, insert_bytes@]);
            }
            k = k + 1;
        }
        assert(theirs.take(theirs.len() as int) == theirs);
    } else {
        let next = match get_page(&mut doc, at_index) {
            Some(page) => page,
            None => {
                return Err(out_of_range_text(at_index));
            },
        };
        assert(mine.take(at) + theirs.take(0) + mine.skip(at) == mine);
        while k < pages.len()
            invariant
                k <= pages@.len(),
                merge_refused(bytes@, insert_bytes@) is None,
                sound(set![bytes@]) <==> !irregular(bytes@),
                ready(doc),
                rest(doc) == pdf_rest(bytes@),
                files(doc) == if k == 0 {
                    set![bytes@]
                } else {
                    set![bytes@, insert_bytes@]
                },
                k == 0 ==> change_faults(doc) == tree_faults(bytes@),
                k > 0 ==> change_faults(doc) == Set::<Seq<char>>::empty(),
                k > 0 && !irregular(bytes@) ==> tree_faults(bytes@) == Set::<Seq<char>>::empty(),
                theirs == pdf_pages(insert_bytes@),
                theirs.len() == pages@.len(),
                forall|i: int|
                    0 <= i < pages@.len() ==> page_files(#[trigger] pages@[i]) == set![insert_bytes@]
                        && page_entry(pages@[i]).1 == theirs[i],
                at == at_index,
                at < mine.len(),
                distinct(page_list(doc)),
                page_list(doc).len() == mine.len() + k,
                page_list(doc)[at + k] == page_entry(next),
                owner(next) == number(doc),
                contents(page_list(doc)) == mine.take(at) + theirs.take(k as int) + mine.skip(at),
            decreases pages@.len() - k,
        {
            let ghost list = page_list(doc);
            let ghost here = files(doc);
            assert(list.contains(page_entry(next)));
            let added = add_page_before(&mut doc, &pages[k], &next);
            match added {
                Ok(_) => {},
                Err(e) => {
                    assert(tree_faults(bytes@).contains(e@) || copy_faults(
                        set![insert_bytes@],
                        theirs[k as int],
                    ).contains(e@));
                    return Err(e);
                },
            }
            proof {
                let page = page_entry(pages@[k as int]).1;
                let (i, id) = choose|i: int, id: int|
                    0 <= i < list.len() && list[i] == page_entry(next) && page_list(doc)
                        == #[trigger] list.insert(i, (id, page));
                assert(i == at + k);
                assert(theirs.take(k + 1) == theirs.take(k as int).push(page));
                assert(contents(page_list(doc)) == contents(list).insert(i, page));
                assert(here.union(set![insert_bytes@]) == set![bytes@, insert_bytes@]);
            }
            k = k + 1;
        }
        assert(theirs.take(theirs.len() as int) == theirs);
    }
    proof {
        assert(set![bytes@, insert_bytes@].contains(bytes@));
        assert(set![bytes@, insert_bytes@].contains(insert_bytes@));
    }
    write_document(doc)
}

// ---------------------------------------------------------------------------
// Laws
// ---------------------------------------------------------------------------

proof fn lemma_ranges_of_both(a: Seq<Seq<char>>, b: Seq<Seq<char>>, n_pages: nat)
    ensures
        part_ranges(a + b, n_pages) == (match part_ranges(a, n_pages) {
            Err(e) => Err(e),
            Ok(first) => match part_ranges(b, n_pages) {
                Err(e) => Err(e),
                Ok(second) => Ok(first + second),
            },
        }),
    decreases b.len(),
{
    if b.len() == 0 {
        assert(a + b =~= a);
        if let Ok(first) = part_ranges(a, n_pages) {
            assert(first + Seq::<(nat, nat)>::empty() =~= first);
        }
    } else {
        lemma_ranges_of_both(a, b.drop_last(), n_pages);
        assert((a + b).drop_last() =~= a + b.drop_last());
        assert((a + b).last() == b.last());
        if let (Ok(first), Ok(second)) = (
            part_ranges(a, n_pages),
            part_ranges(b.drop_last(), n_pages),
        ) {
            assert forall|range: (nat, nat)| (first + second).push(range) =~= first
                + #[trigger] second.push(range) by {}
        }
    }
}

/// Two selections with a comma between them select the pages of both; where one
/// of them is wrong, it is said what is wrong with the first that is.
pub proof fn joined_selections_unite(a: Seq<char>, b: Seq<char>, n_pages: nat)
    ensures
        match selected_ranges(a, n_pages) {
            Err(e) => selected_ranges(a.push(',') + b, n_pages) == Err::<Seq<(nat, nat)>, _>(e),
            Ok(first) => match selected_ranges(b, n_pages) {
                Err(e) => selected_ranges(a.push(',') + b, n_pages) == Err::<Seq<(nat, nat)>, _>(e),
                Ok(second) => {
                    &&& selected_ranges(a.push(',') + b, n_pages) == Ok::<_, Seq<char>>(
                        first + second,
                    )
                    &&& forall|page: int| #[trigger]
                        covered(first + second, page) <==> covered(first, page) || covered(
                            second,
                            page,
                        )
                },
            },
        },
{
    separated_texts_keep_their_pieces(a, b, ',');
    lemma_ranges_of_both(pieces(a, ','), pieces(b, ','), n_pages);
    if let (Ok(first), Ok(second)) = (selected_ranges(a, n_pages), selected_ranges(b, n_pages)) {
        let both = first + second;
        assert forall|page: int| #[trigger] covered(both, page) <==> covered(first, page)
            || covered(second, page) by {
            if covered(first, page) {
                let i = choose|i: int|
                    0 <= i < first.len() && (#[trigger] first[i]).0 <= page <= first[i].1;
                assert(both[i] == first[i]);
            }
            if covered(second, page) {
                let i = choose|i: int|
                    0 <= i < second.len() && (#[trigger] second[i]).0 <= page <= second[i].1;
                assert(both[first.len() + i] == second[i]);
            }
            if covered(both, page) {
                let i = choose|i: int|
                    0 <= i < both.len() && (#[trigger] both[i]).0 <= page <= both[i].1;
                if i < first.len() {
                    assert(first[i] == both[i]);
                } else {
                    assert(second[i - first.len()] == both[i]);
                }
            }
        }
    }
}

/// Whether `inverse` undoes the order `order` of `n` pages.
pub open spec fn undoes(inverse: Seq<u32>, order: Seq<u32>, n: nat) -> bool {
    &&& order.len() == n
    &&& inverse.len() == n
    &&& in_range(order, n)
    &&& in_range(inverse, n)
    &&& forall|i: int| 0 <= i < n ==> order[#[trigger] inverse[i] as int] == i
}

/// The pages of any document that are put into an order, and then into its
/// inverse, stand as they did.
pub proof fn inverse_order_restores_the_pages(pages: Seq<int>, order: Seq<u32>, inverse: Seq<u32>)
    requires
        undoes(inverse, order, pages.len()),
    ensures
        picked(picked(pages, order), inverse) == pages,
{
    assert(picked(picked(pages, order), inverse) =~= pages);
}

proof fn lemma_none_beyond(indices: Seq<u32>, n: nat, from: int)
    requires
        0 <= from,
        in_range(indices, n),
    ensures
        first_beyond(indices, n, from) is None,
    decreases indices.len() - from,
{
    if from < indices.len() {
        lemma_none_beyond(indices, n, from + 1);
    }
}

/// Reordering a file by an order hands its pages on for writing in that order.
/// Reordering a regular file so, and the result by the inverse order, gives back
/// the pages as they were, and what stands beside them. Where the file counts
/// its pages rightly, `first` can fail only as `qpdf` refuses to write the
/// reordered document, and then `second` only as it refuses to write the document
/// with its pages back.
pub proof fn reorder_undone_by_inverse(
    bytes: Seq<u8>,
    order: Seq<u32>,
    inverse: Seq<u32>,
    first: Result<Vec<u8>, String>,
    second: Result<Vec<u8>, String>,
)
    requires
        undoes(inverse, order, pdf_pages(bytes).len()),
        reordering(bytes, order, first),
        first matches Ok(out) ==> reordering(out@, inverse, second),
    ensures
        first matches Ok(out) ==> is_written(
            set![bytes],
            picked(pdf_pages(bytes), order),
            pdf_rest(bytes),
            out@,
        ),
        readable(bytes) ==> match first {
            Ok(out) => {
                &&& pdf_pages(out@) == picked(pdf_pages(bytes), order)
                &&& match second {
                    Ok(back) => pdf_pages(back@) == pdf_pages(bytes) && pdf_rest(back@) == pdf_rest(
                        bytes,
                    ),
                    Err(t) => tree_faults(bytes) == Set::<Seq<char>>::empty() ==> writing_faults(
                        set![out@],
                        pdf_pages(bytes),
                    ).contains(t@),
                }
            },
            Err(t) => tree_faults(bytes) == Set::<Seq<char>>::empty() ==> writing_faults(
                set![bytes],
                picked(pdf_pages(bytes), order),
            ).contains(t@),
        },
{
    let pages = pdf_pages(bytes);
    inverse_order_restores_the_pages(pages, order, inverse);
    lemma_none_beyond(order, pages.len(), 0);
    lemma_none_beyond(inverse, pages.len(), 0);
}

/// The order that counts the positions up leaves the pages as they are.
pub proof fn reorder_by_identity(pages: Seq<int>, order: Seq<u32>)
    requires
        order.len() == pages.len(),
        forall|i: int| 0 <= i < order.len() ==> #[trigger] order[i] == i,
    ensures
        picked(pages, order) == pages,
{
    assert(picked(pages, order) =~= pages);
}

/// Where an inserted document begins.
pub open spec fn insertion_point(n_pages: nat, at: nat) -> nat {
    if at < n_pages {
        at
    } else {
        n_pages
    }
}

/// Deleting the pages that a merge inserted gives the pages back as they were.
pub proof fn merge_undone_by_delete(
    pages: Seq<int>,
    inserted: Seq<int>,
    at: nat,
    indices: Seq<u32>,
)
    requires
        forall|i: int| #[trigger]
            selects(indices, i) <==> insertion_point(pages.len(), at) <= i < insertion_point(
                pages.len(),
                at,
            ) + inserted.len(),
    ensures
        remaining(spliced(pages, inserted, at), indices) == pages,
{
    let from = insertion_point(pages.len(), at) as int;
    let all = spliced(pages, inserted, at);
    assert(all =~= pages.take(from) + inserted + pages.skip(from));
    lemma_remaining_gap(pages, inserted, from, indices, all.len() as int);
    assert(all.take(all.len() as int) == all);
    assert(pages.take(from) + pages.skip(from) == pages);
}

proof fn lemma_remaining_gap(
    pages: Seq<int>,
    inserted: Seq<int>,
    from: int,
    indices: Seq<u32>,
    n: int,
)
    requires
        0 <= from <= pages.len(),
        0 <= n <= pages.len() + inserted.len(),
        forall|i: int| #[trigger]
            selects(indices, i) <==> from <= i < from + inserted.len(),
    ensures
        remaining((pages.take(from) + inserted + pages.skip(from)).take(n), indices) == if n
            <= from {
            pages.take(n)
        } else if n <= from + inserted.len() {
            pages.take(from)
        } else {
            pages.take(n - inserted.len())
        },
    decreases n,
{
    let all = pages.take(from) + inserted + pages.skip(from);
    if n > 0 {
        lemma_remaining_gap(pages, inserted, from, indices, n - 1);
        assert(all.take(n).drop_last() == all.take(n - 1));
        assert(selects(indices, n - 1) <==> from <= n - 1 < from + inserted.len());
        if n <= from {
            assert(pages.take(n) == pages.take(n - 1).push(pages[n - 1]));
        } else if n > from + inserted.len() {
            let m = n - inserted.len();
            assert(pages.take(m) == pages.take(m - 1).push(pages[m - 1]));
        }
    }
}

/// Every page of a document is either extracted or left by a deletion of the
/// same selection, as often as it occurs.
pub proof fn extract_and_delete_share_the_pages(pages: Seq<int>, sorted: Seq<u32>)
    requires
        ascending(sorted),
        in_range(sorted, pages.len()),
    ensures
        picked(pages, sorted).to_multiset().add(remaining(pages, sorted).to_multiset())
            == pages.to_multiset(),
    decreases pages.len(),
{
    broadcast use vstd::seq_lib::group_to_multiset_ensures;

    if pages.len() == 0 {
        if sorted.len() > 0 {
            assert(sorted[0] < 0);
        }
        assert(picked(pages, sorted) =~= pages);
        assert(picked(pages, sorted).to_multiset().add(remaining(pages, sorted).to_multiset())
            =~= pages.to_multiset());
    } else {
        let n = pages.len() - 1;
        let rest = pages.drop_last();
        let last = pages.last();
        assert(pages =~= rest.push(last));
        if selects(sorted, n) {
            let k = choose|k: int| 0 <= k < sorted.len() && #[trigger] sorted[k] == n;
            assert(k == sorted.len() - 1) by {
                if k < sorted.len() - 1 {
                    assert(sorted[k] < sorted[sorted.len() - 1]);
                }
            }
            let below = sorted.drop_last();
            assert(in_range(below, rest.len())) by {
                assert forall|m: int| 0 <= m < below.len() implies #[trigger] below[m]
                    < rest.len() by {
                    assert(sorted[m] < sorted[k]);
                }
            }
            extract_and_delete_share_the_pages(rest, below);
            lemma_remaining_below(rest, sorted, k);
            assert(sorted.take(k) == below);
            assert(picked(pages, sorted) =~= picked(rest, below).push(last));
            assert(picked(pages, sorted).to_multiset().add(remaining(pages, sorted).to_multiset())
                =~= pages.to_multiset());
        } else {
            assert(in_range(sorted, rest.len())) by {
                assert forall|m: int| 0 <= m < sorted.len() implies #[trigger] sorted[m]
                    < rest.len() by {
                    assert(sorted[m] != n);
                }
            }
            extract_and_delete_share_the_pages(rest, sorted);
            assert(picked(pages, sorted) =~= picked(rest, sorted));
            assert(picked(pages, sorted).to_multiset().add(remaining(pages, sorted).to_multiset())
                =~= pages.to_multiset());
        }
    }
}

/// A merge puts all pages of the inserted document, in their order, right behind
/// the first `p` pages of the other, where `p` is the position asked for or, where
/// there are fewer pages, their number; the pages that stood there follow.
pub proof fn merged_pages_stand_in_order(pages: Seq<int>, inserted: Seq<int>, at: nat, p: int)
    requires
        p == if at < pages.len() {
            at as int
        } else {
            pages.len() as int
        },
    ensures
        spliced(pages, inserted, at).len() == pages.len() + inserted.len(),
        forall|i: int| 0 <= i < p ==> #[trigger] spliced(pages, inserted, at)[i] == pages[i],
        forall|i: int|
            0 <= i < inserted.len() ==> spliced(pages, inserted, at)[p + i]
                == #[trigger] inserted[i],
        forall|i: int|
            p <= i < pages.len() ==> spliced(pages, inserted, at)[i + inserted.len()]
                == #[trigger] pages[i],
{
}

/// Extracting the places of a merged document at which the inserted pages stand
/// gives the inserted document's pages; extracting the others gives the pages
/// into which they were inserted.
pub proof fn merged_pages_can_be_extracted(
    pages: Seq<int>,
    inserted: Seq<int>,
    at: nat,
    theirs: Seq<u32>,
    own: Seq<u32>,
)
    requires
        theirs.len() == inserted.len(),
        forall|i: int|
            0 <= i < inserted.len() ==> #[trigger] theirs[i] == i + (if at < pages.len() {
                at
            } else {
                pages.len()
            }),
        own.len() == pages.len(),
        forall|i: int|
            0 <= i < pages.len() ==> #[trigger] own[i] == (if i < at {
                i
            } else {
                i + inserted.len()
            }),
    ensures
        picked(spliced(pages, inserted, at), theirs) == inserted,
        picked(spliced(pages, inserted, at), own) == pages,
{
    assert(picked(spliced(pages, inserted, at), theirs) =~= inserted);
    assert(picked(spliced(pages, inserted, at), own) =~= pages);
}

/// Merging two regular files gives a file with the pages of both: those of the
/// first up to the place asked for, all of the second in their order, and the
/// rest of the first. What the first file holds beside its pages stays. Where the
/// first counts its pages rightly, a merge of files that can be read fails only
/// as `qpdf` refuses to copy a page or to write.
pub proof fn merged_file_holds_both(
    bytes: Seq<u8>,
    insert_bytes: Seq<u8>,
    at: nat,
    r: Result<Vec<u8>, String>,
)
    requires
        merging(bytes, insert_bytes, at, r),
        pdf_error(bytes) is None && pages_error(bytes) is None && !irregular(bytes),
        pdf_error(insert_bytes) is None && pages_error(insert_bytes) is None && !irregular(
            insert_bytes,
        ),
        pdf_pages(insert_bytes).len() > 0,
    ensures
        r matches Ok(out) ==> ({
            let first = pdf_pages(bytes);
            let second = pdf_pages(insert_bytes);
            let p = if at < first.len() {
                at as int
            } else {
                first.len() as int
            };
            &&& pdf_error(out@) is None && pages_error(out@) is None && !irregular(out@)
            &&& pdf_pages(out@).subrange(0, p) == first.subrange(0, p)
            &&& pdf_pages(out@).subrange(p, p + second.len()) == second
            &&& pdf_pages(out@).skip(p + second.len()) == first.skip(p)
            &&& pdf_rest(out@) == pdf_rest(bytes)
        }),
        r matches Err(t) ==> tree_faults(bytes) == Set::<Seq<char>>::empty() ==> (exists|k: int|
            0 <= k < pdf_pages(insert_bytes).len() && copy_faults(
                set![insert_bytes],
                #[trigger] pdf_pages(insert_bytes)[k],
            ).contains(t@)) || (exists|pages: Seq<int>| #[trigger]
            writing_faults(set![bytes, insert_bytes], pages).contains(t@)),
{
    let first = pdf_pages(bytes);
    let second = pdf_pages(insert_bytes);
    let pages = spliced(first, second, at);
    let p = if at < first.len() {
        at as int
    } else {
        first.len() as int
    };
    merged_pages_stand_in_order(first, second, at, p);
    if let Ok(out) = r {
        assert(pdf_pages(out@) == pages);
        assert(pages.subrange(0, p) =~= first.subrange(0, p));
        assert(pages.subrange(p, p + second.len()) =~= second);
        assert forall|i: int| 0 <= i < first.len() - p implies #[trigger] pages.skip(
            p + second.len(),
        )[i] == first.skip(p)[i] by {
            assert(first[p + i] == pages[p + i + second.len()]);
        }
        assert(pages.skip(p + second.len()) =~= first.skip(p));
    }
    if let Err(t) = r {
        if writing_faults(set![bytes, insert_bytes], pages).contains(t@) {
            assert(exists|pages: Seq<int>| #[trigger]
                writing_faults(set![bytes, insert_bytes], pages).contains(t@));
        }
    }
}

/// The pages that are picked are as many as are asked for, and each is the page
/// at the position that is asked for in its place.
pub proof fn picked_pages_are_those_asked_for(pages: Seq<int>, indices: Seq<u32>)
    ensures
        picked(pages, indices).len() == indices.len(),
        forall|i: int|
            0 <= i < indices.len() ==> picked(pages, indices)[i] == pages[(#[trigger] indices[i])
                as int],
{
}

/// Extracting pages from a regular file gives a file that holds, place by place,
/// the pages at the positions asked for, in the order asked for. It fails only
/// where a position is none of the file's or as `qpdf` refuses to copy a page or
/// to write.
pub proof fn extracted_file_holds_the_pages_asked_for(
    bytes: Seq<u8>,
    indices: Seq<u32>,
    r: Result<Vec<u8>, String>,
)
    requires
        extraction(bytes, indices, r),
        pdf_error(bytes) is None && pages_error(bytes) is None && !irregular(bytes),
        indices.len() > 0,
    ensures
        r matches Ok(out) ==> {
            &&& pdf_error(out@) is None && pages_error(out@) is None && !irregular(out@)
            &&& pdf_pages(out@).len() == indices.len()
            &&& forall|i: int|
                0 <= i < indices.len() ==> (#[trigger] indices[i]) < pdf_pages(bytes).len()
                    && pdf_pages(out@)[i] == pdf_pages(bytes)[indices[i] as int]
        },
        r matches Err(t) ==> ({
            ||| exists|i: int| 0 <= i < indices.len() && #[trigger] indices[i] >= pdf_pages(bytes).len()
            ||| exists|page: int| #[trigger] copy_faults(set![bytes], page).contains(t@)
            ||| exists|pages: Seq<int>| #[trigger] writing_faults(set![bytes], pages).contains(t@)
        }),
{
    let pages = pdf_pages(bytes);
    if let Ok(out) = r {
        assert(indices[0] < pages.len());
        assert forall|i: int| 0 <= i < indices.len() implies (#[trigger] indices[i]) < pages.len()
            && pdf_pages(out@)[i] == pages[indices[i] as int] by {}
    }
    if let Err(t) = r {
        if indices[0] < pages.len() {
            if names_beyond(indices, pages.len(), t@) {
                if in_range(indices, pages.len()) {
                    lemma_none_beyond(indices, pages.len(), 0);
                }
            } else if copying_fault(bytes, indices, t@) {
                let k = choose|k: int|
                    0 <= k < indices.len() && #[trigger] indices[k] < pages.len() && copy_faults(
                        set![bytes],
                        pages[indices[k] as int],
                    ).contains(t@);
                assert(copy_faults(set![bytes], pages[indices[k] as int]).contains(t@));
            } else {
                assert(writing_faults(set![bytes], picked(pages, indices)).contains(t@));
            }
        }
    }
}

/// Reordering a regular file gives a file in which each place holds the page at
/// the position that the order names there, and that holds beside its pages what
/// it held.
pub proof fn reordered_file_follows_the_order(
    bytes: Seq<u8>,
    order: Seq<u32>,
    r: Result<Vec<u8>, String>,
)
    requires
        reordering(bytes, order, r),
        pdf_error(bytes) is None && pages_error(bytes) is None && !irregular(bytes),
    ensures
        order.len() != pdf_pages(bytes).len() ==> r is Err,
        (exists|i: int| 0 <= i < order.len() && #[trigger] order[i] >= pdf_pages(bytes).len())
            ==> r is Err,
        r matches Ok(out) ==> {
            &&& pdf_error(out@) is None && pages_error(out@) is None && !irregular(out@)
            &&& pdf_pages(out@).len() == pdf_pages(bytes).len()
            &&& forall|i: int|
                0 <= i < order.len() ==> pdf_pages(out@)[i] == pdf_pages(bytes)[(
                #[trigger] order[i]) as int]
            &&& pdf_rest(out@) == pdf_rest(bytes)
        },
{
}

/// Deleting pages leaves the pages at the other positions, which are `kept`, each
/// once, in the order in which they stood.
pub proof fn deletion_leaves_the_other_pages_in_order(pages: Seq<int>, indices: Seq<u32>) -> (kept:
    Seq<int>)
    ensures
        remaining(pages, indices).len() == kept.len(),
        forall|i: int|
            0 <= i < kept.len() ==> remaining(pages, indices)[i] == pages[#[trigger] kept[i]],
        forall|i: int, j: int| 0 <= i < j < kept.len() ==> kept[i] < kept[j],
        forall|i: int| #[trigger]
            kept.contains(i) <==> 0 <= i < pages.len() && !(exists|k: int|
                0 <= k < indices.len() && #[trigger] indices[k] == i),
    decreases pages.len(),
{
    if pages.len() == 0 {
        Seq::<int>::empty()
    } else {
        let n = pages.len() - 1;
        let before = deletion_leaves_the_other_pages_in_order(pages.drop_last(), indices);
        assert forall|k: int| 0 <= k < before.len() implies 0 <= #[trigger] before[k] < n by {
            assert(before.contains(before[k]));
        }
        if selects(indices, n) {
            before
        } else {
            let kept = before.push(n);
            assert forall|i: int| #[trigger] kept.contains(i) <==> 0 <= i < pages.len() && !(
            exists|k: int| 0 <= k < indices.len() && #[trigger] indices[k] == i) by {
                if before.contains(i) {
                    assert(kept[before.index_of(i)] == i);
                }
                if kept.contains(i) && i != n {
                    assert(before[kept.index_of(i)] == i);
                    assert(before.contains(i));
                }
                assert(kept[before.len() as int] == n);
            }
            kept
        }
    }
}

/// Deleting one page takes that page out; deleting none leaves the pages as they
/// are.
pub proof fn deleting_one_page_takes_it_out(pages: Seq<int>, page: u32)
    requires
        page < pages.len(),
    ensures
        remaining(pages, seq![page]) == pages.remove(page as int),
        remaining(pages, Seq::<u32>::empty()) == pages,
    decreases pages.len(),
{
    let front = pages.drop_last();
    let n = pages.len() - 1;
    assert(seq![page][0] == page);
    lemma_remaining_none(pages);
    if page < n {
        deleting_one_page_takes_it_out(front, page);
        assert(!selects(seq![page], n));
        assert(front.remove(page as int).push(pages.last()) =~= pages.remove(page as int));
    } else {
        assert(selects(seq![page], n));
        assert forall|i: int| 0 <= i < front.len() implies !selects(seq![page], i) by {}
        lemma_none_selected(front, seq![page]);
        assert(front =~= pages.remove(page as int));
    }
}

proof fn lemma_none_selected(pages: Seq<int>, indices: Seq<u32>)
    requires
        forall|i: int| 0 <= i < pages.len() ==> !selects(indices, i),
    ensures
        remaining(pages, indices) == pages,
    decreases pages.len(),
{
    if pages.len() > 0 {
        lemma_none_selected(pages.drop_last(), indices);
        assert(!selects(indices, pages.len() - 1));
        assert(pages.drop_last().push(pages.last()) =~= pages);
    } else {
        assert(remaining(pages, indices) =~= pages);
    }
}

proof fn lemma_remaining_count(pages: Seq<int>, sorted: Seq<u32>)
    requires
        ascending(sorted),
        in_range(sorted, pages.len()),
    ensures
        remaining(pages, sorted).len() + sorted.len() == pages.len(),
    decreases pages.len(),
{
    if pages.len() == 0 {
        if sorted.len() > 0 {
            assert(sorted[0] < 0);
        }
    } else {
        let n = pages.len() - 1;
        let front = pages.drop_last();
        if selects(sorted, n) {
            let k = choose|k: int| 0 <= k < sorted.len() && #[trigger] sorted[k] == n;
            if k < sorted.len() - 1 {
                assert(sorted[k] < sorted[sorted.len() - 1]);
            }
            let below = sorted.drop_last();
            assert forall|m: int| 0 <= m < below.len() implies #[trigger] below[m] < n by {
                assert(sorted[m] < sorted[k]);
            }
            lemma_remaining_count(front, below);
            lemma_remaining_below(front, sorted, k);
            assert(sorted.take(k) == below);
        } else {
            assert forall|m: int| 0 <= m < sorted.len() implies #[trigger] sorted[m] < n by {
                assert(sorted[m] != n);
            }
            lemma_remaining_count(front, sorted);
        }
    }
}

/// Deleting pages of a regular file leaves a file with the other pages in their
/// order, at least one, and with what it holds beside them. Positions that the
/// file does not have, and all positions that it has, are refused. Where the file
/// counts its pages rightly, any other deletion fails only as `qpdf` refuses to
/// write.
pub proof fn deletion_leaves_a_file_with_pages(
    bytes: Seq<u8>,
    sorted: Seq<u32>,
    r: Result<Vec<u8>, String>,
)
    requires
        forall|i: int, j: int| 0 <= i < j < sorted.len() ==> sorted[i] < sorted[j],
        deletion(bytes, sorted, r),
        pdf_error(bytes) is None && pages_error(bytes) is None && !irregular(bytes),
    ensures
        sorted.len() >= pdf_pages(bytes).len() ==> r is Err,
        (exists|k: int| 0 <= k < sorted.len() && #[trigger] sorted[k] >= pdf_pages(bytes).len())
            ==> r is Err,
        r matches Ok(out) ==> {
            &&& pdf_error(out@) is None && pages_error(out@) is None && !irregular(out@)
            &&& pdf_pages(out@) == remaining(pdf_pages(bytes), sorted)
            &&& pdf_pages(out@).len() == pdf_pages(bytes).len() - sorted.len()
            &&& pdf_pages(out@).len() > 0
            &&& pdf_rest(out@) == pdf_rest(bytes)
        },
        r matches Err(t) ==> sorted.len() < pdf_pages(bytes).len() && (forall|k: int|
            0 <= k < sorted.len() ==> #[trigger] sorted[k] < pdf_pages(bytes).len())
            && tree_faults(bytes) == Set::<Seq<char>>::empty() ==> writing_faults(
            set![bytes],
            remaining(pdf_pages(bytes), sorted),
        ).contains(t@),
{
    let pages = pdf_pages(bytes);
    if let Ok(out) = r {
        lemma_remaining_count(pages, sorted);
    }
    if in_range(sorted, pages.len()) {
        lemma_none_beyond(sorted, pages.len(), 0);
    }
}

proof fn lemma_digits_stand_alone(n: nat)
    ensures
        decimal(n).len() > 0,
        !is_white(decimal(n)[0]),
        !is_white(decimal(n).last()),
        decimal(n)[0] != '+',
        forall|k: int|
            0 <= k < decimal(n).len() ==> #[trigger] decimal(n)[k] != '-' && decimal(n)[k] != ',',
        n <= u32::MAX ==> parsed_number(decimal(n), u32::MAX as nat) == Some(n),
{
    let d = decimal(n);
    decimal_reads_back(n);
    assert(is_digit(d[0]));
    assert(is_digit(d[d.len() - 1]));
}

/// `a` and `b` in decimal notation with a dash between them, and white space
/// round each.
pub open spec fn range_text(
    a: nat,
    b: nat,
    w0: Seq<char>,
    w1: Seq<char>,
    w2: Seq<char>,
    w3: Seq<char>,
) -> Seq<char> {
    w0 + decimal(a) + w1 + seq!['-'] + w2 + decimal(b) + w3
}

proof fn lemma_single_part(part: Seq<char>, core: Seq<char>, n_pages: nat)
    requires
        lacks(part, ','),
        trimmed(part) == core,
    ensures
        selected_ranges(part, n_pages) == (if core.len() == 0 {
            Ok(Seq::empty())
        } else {
            match part_range(core, n_pages) {
                Err(e) => Err(e),
                Ok(range) => Ok(seq![range]),
            }
        }),
{
    let none = Seq::<(nat, nat)>::empty();
    let parts = seq![part];
    joined_texts_split_back(parts, ',');
    assert(joined(parts, seq![',']) == part);
    assert(parts.drop_last() =~= Seq::<Seq<char>>::empty());
    reveal_with_fuel(part_ranges, 2);
    if core.len() > 0 {
        if let Ok(range) = part_range(core, n_pages) {
            assert(none.push(range) =~= seq![range]);
        }
    }
}

proof fn lemma_white_lacks(w: Seq<char>, c: char)
    requires
        all_white(w),
        !is_white(c),
    ensures
        lacks(w, c),
{
}

/// What stands between the white space before `a` and the white space behind
/// `b`.
spec fn range_core(a: nat, b: nat, w1: Seq<char>, w2: Seq<char>) -> Seq<char> {
    decimal(a) + w1 + seq!['-'] + w2 + decimal(b)
}

proof fn lemma_range_core(a: nat, b: nat, w1: Seq<char>, w2: Seq<char>)
    requires
        a <= u32::MAX,
        b <= u32::MAX,
        all_white(w1),
        all_white(w2),
    ensures
        part_bounds(range_core(a, b, w1, w2)) == Ok::<(nat, nat), Seq<char>>((a, b)),
{
    let core = range_core(a, b, w1, w2);
    let none = Seq::<char>::empty();
    let left = decimal(a) + w1;
    let right = w2 + decimal(b);
    lemma_digits_stand_alone(a);
    lemma_digits_stand_alone(b);
    lemma_white_lacks(w1, '-');
    assert(core =~= left + seq!['-'] + right);
    assert forall|k: int| 0 <= k < left.len() implies #[trigger] left[k] != '-' by {
        if k < decimal(a).len() {
            assert(decimal(a)[k] != '-');
        } else {
            assert(w1[k - decimal(a).len()] != '-');
        }
    }
    found_character_is_the_first(core, '-');
    let dash = find(core, '-') as int;
    assert(core[left.len() as int] == '-');
    if dash < left.len() {
        assert(core[dash] == left[dash]);
    }
    if dash > left.len() {
        assert(core[left.len() as int] != '-');
    }
    assert(core.take(dash) =~= left);
    assert(core.skip(dash + 1) =~= right);
    trimming_takes_white_space_alone(none, decimal(a), w1);
    assert(none + decimal(a) + w1 =~= left);
    trimming_takes_white_space_alone(w2, decimal(b), none);
    assert(w2 + decimal(b) + none =~= right);
}

proof fn lemma_range_trimmed(
    a: nat,
    b: nat,
    w0: Seq<char>,
    w1: Seq<char>,
    w2: Seq<char>,
    w3: Seq<char>,
)
    requires
        all_white(w0),
        all_white(w1),
        all_white(w2),
        all_white(w3),
    ensures
        trimmed(range_text(a, b, w0, w1, w2, w3)) == range_core(a, b, w1, w2),
        lacks(range_text(a, b, w0, w1, w2, w3), ','),
        range_core(a, b, w1, w2).len() > 0,
{
    let text = range_text(a, b, w0, w1, w2, w3);
    let core = range_core(a, b, w1, w2);
    lemma_digits_stand_alone(a);
    lemma_digits_stand_alone(b);
    assert(text =~= w0 + core + w3);
    assert(core[0] == decimal(a)[0]);
    assert(core.last() == decimal(b).last());
    trimming_takes_white_space_alone(w0, core, w3);
    lemma_white_lacks(w0, ',');
    lemma_white_lacks(w1, ',');
    lemma_white_lacks(w2, ',');
    lemma_white_lacks(w3, ',');
    let c0 = w0.len();
    let c1 = c0 + decimal(a).len();
    let c2 = c1 + w1.len();
    let c3 = c2 + 1 + w2.len();
    let c4 = c3 + decimal(b).len();
    assert forall|k: int| 0 <= k < text.len() implies #[trigger] text[k] != ',' by {
        if k < c0 {
            assert(w0[k] != ',');
        } else if k < c1 {
            assert(decimal(a)[k - c0] != ',');
        } else if k < c2 {
            assert(w1[k - c1] != ',');
        } else if k == c2 {
        } else if k < c3 {
            assert(w2[k - c2 - 1] != ',');
        } else if k < c4 {
            assert(decimal(b)[k - c3] != ',');
        } else {
            assert(w3[k - c4] != ',');
        }
    }
}

/// The numbers of a first and a last page with a dash between them select the
/// pages from the one to the other, and no more, in every document that has them,
/// whatever white space stands round the numbers.
pub proof fn page_range_selects_its_pages(
    a: nat,
    b: nat,
    n_pages: nat,
    w0: Seq<char>,
    w1: Seq<char>,
    w2: Seq<char>,
    w3: Seq<char>,
)
    requires
        1 <= a <= b <= n_pages <= u32::MAX,
        all_white(w0),
        all_white(w1),
        all_white(w2),
        all_white(w3),
    ensures
        selected_ranges(w0 + decimal(a) + w1 + seq!['-'] + w2 + decimal(b) + w3, n_pages) == Ok::<
            _,
            Seq<char>,
        >(seq![(a, b)]),
        forall|page: int| #[trigger] covered(seq![(a, b)], page) <==> a <= page <= b,
{
    lemma_range_trimmed(a, b, w0, w1, w2, w3);
    lemma_range_core(a, b, w1, w2);
    lemma_single_part(range_text(a, b, w0, w1, w2, w3), range_core(a, b, w1, w2), n_pages);
    assert forall|page: int| #[trigger] covered(seq![(a, b)], page) <==> a <= page <= b by {
        assert(seq![(a, b)][0] == (a, b));
    }
}

/// A page number by itself selects that page and no other, in every document that
/// has it, whatever white space stands round it.
pub proof fn page_number_selects_its_page(a: nat, n_pages: nat, w0: Seq<char>, w1: Seq<char>)
    requires
        1 <= a <= n_pages <= u32::MAX,
        all_white(w0),
        all_white(w1),
    ensures
        selected_ranges(w0 + decimal(a) + w1, n_pages) == Ok::<_, Seq<char>>(seq![(a, a)]),
        forall|page: int| #[trigger] covered(seq![(a, a)], page) <==> page == a,
{
    lemma_number_part(a, n_pages, w0, w1);
    assert forall|page: int| #[trigger] covered(seq![(a, a)], page) <==> page == a by {
        assert(seq![(a, a)][0] == (a, a));
    }
}

proof fn lemma_number_part(a: nat, n_pages: nat, w0: Seq<char>, w1: Seq<char>)
    requires
        a <= u32::MAX,
        all_white(w0),
        all_white(w1),
    ensures
        part_bounds(decimal(a)) == Ok::<(nat, nat), Seq<char>>((a, a)),
        selected_ranges(w0 + decimal(a) + w1, n_pages) == (match part_range(decimal(a), n_pages) {
            Err(e) => Err(e),
            Ok(range) => Ok(seq![range]),
        }),
{
    let text = w0 + decimal(a) + w1;
    lemma_digits_stand_alone(a);
    lemma_white_lacks(w0, ',');
    lemma_white_lacks(w1, ',');
    trimming_takes_white_space_alone(w0, decimal(a), w1);
    found_character_is_the_first(decimal(a), '-');
    let c0 = w0.len();
    let c1 = c0 + decimal(a).len();
    assert forall|k: int| 0 <= k < text.len() implies #[trigger] text[k] != ',' by {
        if k < c0 {
            assert(w0[k] != ',');
        } else if k < c1 {
            assert(decimal(a)[k - c0] != ',');
        } else {
            assert(w1[k - c1] != ',');
        }
    }
    lemma_single_part(text, decimal(a), n_pages);
}

/// A selection of page ranges with commas between them selects the ranges, in
/// their order.
pub proof fn listed_ranges_are_selected(list: Seq<(nat, nat)>, n_pages: nat)
    requires
        list.len() > 0,
        n_pages <= u32::MAX,
        forall|i: int|
            0 <= i < list.len() ==> 1 <= (#[trigger] list[i]).0 <= list[i].1 <= n_pages,
    ensures
        selected_ranges(
            joined(
                list.map_values(|r: (nat, nat)| decimal(r.0) + seq!['-'] + decimal(r.1)),
                seq![','],
            ),
            n_pages,
        ) == Ok::<_, Seq<char>>(list),
    decreases list.len(),
{
    let none = Seq::<char>::empty();
    let write = |r: (nat, nat)| decimal(r.0) + seq!['-'] + decimal(r.1);
    let all = list.map_values(write);
    let last = list[list.len() - 1];
    let part = write(last);
    page_range_selects_its_pages(last.0, last.1, n_pages, none, none, none, none);
    assert(range_text(last.0, last.1, none, none, none, none) =~= part);
    if list.len() == 1 {
        assert(all =~= seq![part]);
        assert(list =~= seq![last]);
    } else {
        let front = list.drop_last();
        let before = front.map_values(write);
        listed_ranges_are_selected(front, n_pages);
        assert(all =~= before + seq![part]);
        joining_puts_a_separator_between(before, seq![part], seq![','], part);
        let text = joined(before, seq![',']);
        assert(text + seq![','] + part =~= text.push(',') + part);
        joined_selections_unite(text, part, n_pages);
        assert(front + seq![last] =~= list);
    }
}

/// A range that starts or ends at no page, or that runs backwards, is refused, and
/// so is one that ends behind the last page; the text that says so names the range
/// or the page.
pub proof fn impossible_range_is_refused(a: nat, b: nat, n_pages: nat, w0: Seq<char>, w1: Seq<char>)
    requires
        a <= u32::MAX,
        b <= u32::MAX,
        all_white(w0),
        all_white(w1),
    ensures
        a == 0 || b == 0 || a > b ==> selected_ranges(
            w0 + decimal(a) + seq!['-'] + decimal(b) + w1,
            n_pages,
        ) == Err::<Seq<(nat, nat)>, _>(
            "invalid page range: "@ + (decimal(a) + seq!['-'] + decimal(b)),
        ),
        1 <= a <= b && n_pages < b ==> selected_ranges(
            w0 + decimal(a) + seq!['-'] + decimal(b) + w1,
            n_pages,
        ) == Err::<Seq<(nat, nat)>, _>(
            "page "@ + decimal(b) + " is beyond the document's "@ + decimal(n_pages) + " pages"@,
        ),
        a == 0 ==> selected_ranges(w0 + decimal(a) + w1, n_pages) == Err::<Seq<(nat, nat)>, _>(
            "invalid page range: "@ + decimal(a),
        ),
        n_pages < a ==> selected_ranges(w0 + decimal(a) + w1, n_pages) == Err::<
            Seq<(nat, nat)>,
            _,
        >("page "@ + decimal(a) + " is beyond the document's "@ + decimal(n_pages) + " pages"@),
{
    let none = Seq::<char>::empty();
    lemma_range_trimmed(a, b, w0, none, none, w1);
    lemma_range_core(a, b, none, none);
    lemma_single_part(range_text(a, b, w0, none, none, w1), range_core(a, b, none, none), n_pages);
    assert(range_core(a, b, none, none) =~= decimal(a) + seq!['-'] + decimal(b));
    assert(range_text(a, b, w0, none, none, w1) =~= w0 + decimal(a) + seq!['-'] + decimal(b) + w1);
    lemma_number_part(a, n_pages, w0, w1);
}

/// White space alone selects nothing.
pub proof fn blank_selection_selects_nothing(w: Seq<char>, n_pages: nat)
    requires
        all_white(w),
    ensures
        selected_ranges(w, n_pages) == Ok::<_, Seq<char>>(Seq::<(nat, nat)>::empty()),
{
    let none = Seq::<char>::empty();
    trimming_takes_white_space_alone(w, none, none);
    assert(w + none + none =~= w);
    lemma_white_lacks(w, ',');
    lemma_single_part(w, none, n_pages);
}

proof fn lemma_no_number(s: Seq<char>, k: int, max: nat)
    requires
        0 <= k < s.len(),
        !is_digit(s[k]),
        s[k] != '+',
    ensures
        parsed_number(s, max) is None,
{
    if s[0] == '+' {
        assert(s.skip(1)[k - 1] == s[k]);
    } else {
        assert(!is_digit(s[k]));
    }
}

/// A part of a selection with a character in it that is no digit, no dash, no plus
/// sign and no white space is refused.
pub proof fn foreign_character_is_refused(part: Seq<char>, k: int, n_pages: nat)
    requires
        lacks(part, ','),
        0 <= k < part.len(),
        !is_digit(part[k]) && !is_white(part[k]) && part[k] != '-' && part[k] != '+',
    ensures
        selected_ranges(part, n_pages) is Err,
{
    let core = trimmed(part);
    let m = trimming_keeps_the_rest(part, k);
    lemma_single_part(part, core, n_pages);
    found_character_is_the_first(core, '-');
    let dash = find(core, '-') as int;
    if dash < core.len() {
        let a = core.take(dash);
        let b = core.skip(dash + 1);
        if m < dash {
            assert(a[m] == core[m]);
            let n = trimming_keeps_the_rest(a, m);
            lemma_no_number(trimmed(a), n, u32::MAX as nat);
        } else {
            assert(b[m - dash - 1] == core[m]);
            let n = trimming_keeps_the_rest(b, m - dash - 1);
            lemma_no_number(trimmed(b), n, u32::MAX as nat);
        }
    } else {
        lemma_no_number(core, m, u32::MAX as nat);
    }
}

/// The first position that a document does not have is the one that is named.
pub proof fn first_missing_page_is_named(indices: Seq<u32>, n: nat, k: int, t: Seq<char>)
    requires
        0 <= k < indices.len(),
        indices[k] >= n,
        forall|m: int| 0 <= m < k ==> #[trigger] indices[m] < n,
    ensures
        names_beyond(indices, n, t) <==> t == "page "@ + decimal(indices[k] as nat)
            + " out of range"@,
{
    lemma_first_beyond(indices, n, 0, k);
}

/// Where a document has all positions, none is named as missing.
pub proof fn no_page_is_missing_where_all_are_there(indices: Seq<u32>, n: nat, t: Seq<char>)
    requires
        forall|m: int| 0 <= m < indices.len() ==> #[trigger] indices[m] < n,
    ensures
        !names_beyond(indices, n, t),
{
    lemma_none_beyond(indices, n, 0);
}

/// A document can be inserted into another exactly where both can be read and there
/// is a page to insert; what is wrong with the other document is said before what is
/// wrong with the one to insert.
pub proof fn merge_needs_both_files_and_a_page(bytes: Seq<u8>, insert_bytes: Seq<u8>)
    ensures
        merge_refused(bytes, insert_bytes) is None <==> pdf_error(bytes) is None && pages_error(
            bytes,
        ) is None && pdf_error(insert_bytes) is None && pages_error(insert_bytes) is None
            && pdf_pages(insert_bytes).len() > 0,
        pdf_error(bytes) is Some ==> merge_refused(bytes, insert_bytes) == pdf_error(bytes),
        pdf_error(bytes) is None && pdf_error(insert_bytes) is Some ==> merge_refused(
            bytes,
            insert_bytes,
        ) == pdf_error(insert_bytes),
{
}

} // verus!
