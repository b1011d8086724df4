//! Workloads over many cells: each builds its cells, reads them back and adds
//! up what it read.

use vstd::prelude::*;
use vstd::utf8::encode_utf8;
use crate::cells::Ast;
use crate::cells::I32Cell;
use crate::cells::I32Ref;
use crate::cells::Span;
use crate::cells::StringCell;
use crate::decimal::all_digits;
use crate::decimal::decimal;
use crate::decimal::decimal_text;
use crate::decimal::is_digit;
use crate::decimal::lemma_decimal_digits_are_digits;
use crate::decimal::lemma_decimal_digits_len_bound;
use crate::decimal::lemma_number_of_decimal_text;
use crate::decimal::number_of;
use crate::decimal::parse_i32;
use crate::decimal::PLUS;
use crate::layout::joined_size_of;

verus! {

/// What `i32_list` adds for the cell of `x`.
pub open spec fn i32_list_term(x: int) -> int {
    if x % 66 == 0 {
        x
    } else {
        x + 8
    }
}

/// What `i32_list` adds up over the cells of `0 .. n`.
pub open spec fn i32_list_sum(n: int) -> int
    decreases n,
{
    if n <= 0 {
        0
    } else {
        i32_list_sum(n - 1) + i32_list_term(n - 1)
    }
}

/// What `i32_sparse` adds for `x`: the cell's number where there is a cell, 3
/// where there is none.
pub open spec fn i32_sparse_term(x: int) -> int {
    if x % 8 == 0 {
        x
    } else {
        3
    }
}

/// What `i32_sparse` adds up over `0 .. n`.
pub open spec fn i32_sparse_sum(n: int) -> int
    decreases n,
{
    if n <= 0 {
        0
    } else {
        i32_sparse_sum(n - 1) + i32_sparse_term(n - 1)
    }
}

/// How far the sum `s` is below `2 * n`, where a random workload stops.
pub open spec fn random_left(n: int, s: int) -> int {
    if s < 2 * n {
        2 * n - s
    } else {
        0
    }
}

/// One step of `i32_random` from the sum `s`: the number read from the cell
/// that `s` picks among the first `n - 66`, and one more.
pub open spec fn i32_random_step(n: int, s: int) -> int {
    s + s % (n - 66) + 1
}

/// The sum at which `i32_random` stops when it stands at `s`: the first sum
/// from there on that has reached `2 * n`.
pub open spec fn i32_random_from(n: int, s: int) -> int
    decreases random_left(n, s),
{
    if n <= 66 || s < 0 || s >= 2 * n {
        s
    } else {
        proof {
            lemma_i32_random_step_grows(n, s);
        }
        i32_random_from(n, i32_random_step(n, s))
    }
}

/// A step adds at least one, and less than `n - 65`.
pub proof fn lemma_i32_random_step_grows(n: int, s: int)
    requires
        n > 66,
    ensures
        s < i32_random_step(n, s) <= s + n - 66,
{
    vstd::arithmetic::div_mod::lemma_mod_bound(s, n - 66);
}

/// The sums of `i32_list` grow with `n` and start at 0.
pub proof fn lemma_i32_list_sum_grows(a: int, b: int)
    requires
        a <= b,
    ensures
        0 <= i32_list_sum(a) <= i32_list_sum(b),
    decreases b,
{
    if b > 0 {
        if a < b {
            lemma_i32_list_sum_grows(a, b - 1);
        } else {
            lemma_i32_list_sum_grows(a - 1, b - 1);
        }
    }
}

/// A bound on the sums of `i32_list`, for callers that have to show that a
/// sum fits.
pub proof fn lemma_i32_list_sum_bound(n: int)
    requires
        0 <= n,
    ensures
        2 * i32_list_sum(n) <= n * (n + 15),
    decreases n,
{
    if n > 0 {
        lemma_i32_list_sum_bound(n - 1);
        assert((n - 1) * (n + 14) + 2 * (n + 7) == n * (n + 15)) by (nonlinear_arith);
    }
}

/// A bound on the sums of `i32_sparse`, for callers that have to show that
/// a sum fits.
pub proof fn lemma_i32_sparse_sum_bound(n: int)
    requires
        0 <= n,
    ensures
        2 * i32_sparse_sum(n) <= n * (n + 5),
    decreases n,
{
    if n > 0 {
        lemma_i32_sparse_sum_bound(n - 1);
        assert((n - 1) * (n + 4) + 2 * (n + 2) == n * (n + 5)) by (nonlinear_arith);
    }
}

/// A bound on where `i32_random` stops, for callers that have to show that
/// the sum fits.
pub proof fn lemma_i32_random_from_bound(n: int, s: int)
    requires
        n > 66,
        0 <= s < 2 * n,
    ensures
        i32_random_from(n, s) <= 3 * n - 67,
    decreases random_left(n, s),
{
    lemma_i32_random_step_grows(n, s);
    let next = i32_random_step(n, s);
    if next < 2 * n {
        lemma_i32_random_from_bound(n, next);
    } else {
        assert(i32_random_from(n, next) == next);
    }
}

/// The sums of `i32_sparse` grow with `n` and start at 0.
pub proof fn lemma_i32_sparse_sum_grows(a: int, b: int)
    requires
        a <= b,
    ensures
        0 <= i32_sparse_sum(a) <= i32_sparse_sum(b),
    decreases b,
{
    if b > 0 {
        if a < b {
            lemma_i32_sparse_sum_grows(a, b - 1);
        } else {
            lemma_i32_sparse_sum_grows(a - 1, b - 1);
        }
    }
}

/// `i32_random` never stops below the sum it stands at.
pub proof fn lemma_i32_random_from_grows(n: int, s: int)
    ensures
        s <= i32_random_from(n, s),
    decreases random_left(n, s),
{
    if !(n <= 66 || s < 0 || s >= 2 * n) {
        lemma_i32_random_step_grows(n, s);
        lemma_i32_random_from_grows(n, i32_random_step(n, s));
    }
}

/// Whether `span` is a word of `text`: a stretch of more than one byte that
/// holds no `+` and reaches, on either side, to a `+` or to the end of the
/// text. The `+` signs part the words.
pub open spec fn is_word(text: Seq<u8>, span: Span) -> bool {
    &&& span.start + 1 < span.end <= text.len()
    &&& forall|i: int| span.start <= i < span.end ==> text[i] != PLUS
    &&& (span.start == 0 || text[span.start - 1] == PLUS)
    &&& (span.end == text.len() || text[span.end as int] == PLUS)
}

/// Whether `ast` lists the words of `text`: each of them, once, in the order
/// in which they stand there, and nothing else.
pub open spec fn is_ast_of(ast: Seq<Span>, text: Seq<u8>) -> bool {
    &&& forall|k: int| 0 <= k < ast.len() ==> is_word(text, #[trigger] ast[k])
    &&& forall|j: int, k: int| 0 <= j < k < ast.len() ==> (#[trigger] ast[j]).end < (#[trigger] ast[k]).start
    &&& forall|span: Span| is_word(text, span) ==> ast.contains(span)
}

/// A text has one list of words.
pub proof fn lemma_ast_is_unique(text: Seq<u8>, first: Seq<Span>, second: Seq<Span>)
    requires
        is_ast_of(first, text),
        is_ast_of(second, text),
    ensures
        first == second,
{
    lemma_ast_prefix_is_unique(text, first, second, first.len() as int);
    lemma_ast_prefix_is_unique(text, second, first, second.len() as int);
    assert(first =~= second);
}

/// Two lists of the words of one text agree on their first `k` places.
proof fn lemma_ast_prefix_is_unique(text: Seq<u8>, first: Seq<Span>, second: Seq<Span>, k: int)
    requires
        is_ast_of(first, text),
        is_ast_of(second, text),
        0 <= k <= first.len(),
    ensures
        k <= second.len(),
        forall|i: int| 0 <= i < k ==> first[i] == second[i],
    decreases k,
{
    if k > 0 {
        lemma_ast_prefix_is_unique(text, first, second, k - 1);
        let word = first[k - 1];
        assert(second.contains(word));
        let at = choose|at: int| 0 <= at < second.len() && second[at] == word;
        // `word` stands behind the first `k - 1` words, which both lists share.
        if at < k - 1 {
            assert(first[at] == second[at]);
            assert(first[at].end < first[k - 1].start);
        }
        if at > k - 1 {
            // Then `second[k - 1]` stands before `word` and is missing in `first`.
            let skipped = second[k - 1];
            assert(skipped.end < second[at].start);
            assert(first.contains(skipped));
            let back = choose|back: int| 0 <= back < first.len() && first[back] == skipped;
            if back < k - 1 {
                assert(second[back] == first[back]);
                assert(second[back].end < second[k - 1].start);
            } else if back > k - 1 {
                assert(first[k - 1].end < first[back].start);
            }
        }
    }
}

/// The words of `body`: its stretches between `+` signs that are longer than
/// one byte.
pub fn ast_from_string(body: &String) -> (ast: Ast)
    ensures
        is_ast_of(ast@, encode_utf8(body@)),
{
    let bytes = body.as_str().as_bytes();
    let ghost text = bytes@;
    let mut ast: Ast = Vec::new();
    let mut start: usize = 0;
    let mut i: usize = 0;
    while i < bytes.len()
        invariant
            text == bytes@,
            start <= i <= text.len(),
            start == 0 || text[start - 1] == PLUS,
            forall|j: int| start <= j < i ==> text[j] != PLUS,
            forall|k: int| 0 <= k < ast.len() ==> is_word(text, #[trigger] ast[k]),
            forall|k: int| 0 <= k < ast.len() ==> (#[trigger] ast[k]).end < start,
            forall|j: int, k: int|
                0 <= j < k < ast.len() ==> (#[trigger] ast[j]).end < (#[trigger] ast[k]).start,
            forall|span: Span| is_word(text, span) && span.end < start ==> ast@.contains(span),
        decreases text.len() - i,
    {
        if bytes[i] == PLUS {
            let ghost before = ast@;
            if i - start > 1 {
                ast.push(Span { start, end: i });
            }
            proof {
                assert forall|span: Span| is_word(text, span) && span.end < i + 1 implies ast@.contains(
                    span,
                ) by {
                    if span.end < start {
                        let at = choose|at: int| 0 <= at < before.len() && before[at] == span;
                        assert(ast@[at] == span);
                    } else {
                        lemma_word_ends_at_sign(text, start as int, i as int, span);
                        assert(ast@[ast.len() - 1] == span);
                    }
                }
            }
            start = i + 1;
        }
        i += 1;
    }
    let ghost before = ast@;
    if i - start > 1 {
        ast.push(Span { start, end: i });
    }
    proof {
        assert forall|span: Span| is_word(text, span) implies ast@.contains(span) by {
            if span.end < start {
                let at = choose|at: int| 0 <= at < before.len() && before[at] == span;
                assert(ast@[at] == span);
            } else {
                lemma_word_ends_at_sign(text, start as int, i as int, span);
                assert(ast@[ast.len() - 1] == span);
            }
        }
    }
    ast
}

/// Where no `+` stands in `start .. end`, a `+` or the start of the text
/// stands before `start`, and a `+` or the end of the text stands at `end`,
/// a word that ends at `start` or behind it, and not behind `end`, is the
/// stretch `start .. end`.
proof fn lemma_word_ends_at_sign(text: Seq<u8>, start: int, end: int, span: Span)
    requires
        0 <= start <= end <= text.len(),
        start == 0 || text[start - 1] == PLUS,
        forall|j: int| start <= j < end ==> text[j] != PLUS,
        end == text.len() || text[end] == PLUS,
        is_word(text, span),
        start <= span.end <= end,
    ensures
        span.start == start,
        span.end == end,
{
    // The byte before the word's end belongs to the word and is no `+`.
    assert(text[span.end - 1] != PLUS);
    if span.end < end {
        assert(text[span.end as int] != PLUS);
    }
    if span.start < start {
        assert(text[start - 1] != PLUS);
    }
    if span.start > start {
        assert(text[span.start - 1] != PLUS);
    }
}

/// A cell of `x` and its words.
pub fn string_cell_new(x: String) -> (cell: StringCell)
    requires
        joined_size_of::<String, Ast>() != 0,
    ensures
        cell@.owner == x,
        is_ast_of(cell@.dependent@, encode_utf8(x@)),
{
    StringCell::new(x, ast_from_string)
}

/// The same cell through the builder that may fail; this one never does.
pub fn string_cell_try_new_ok(x: String) -> (res: Result<StringCell, Box<u32>>)
    requires
        joined_size_of::<String, Ast>() != 0,
    ensures
        res is Ok,
        res->Ok_0@.owner == x,
        is_ast_of(res->Ok_0@.dependent@, encode_utf8(x@)),
{
    StringCell::try_new(x, |o: &String| -> (r: Result<Ast, Box<u32>>)
        ensures
            r is Ok,
            is_ast_of(r->Ok_0@, encode_utf8(o@)),
        { Ok(ast_from_string(o)) })
}

/// A cell of `x` whose dependent is what it read from the owner.
pub fn i32_cell_new(x: i32) -> (cell: I32Cell)
    ensures
        cell@.owner == x,
        cell@.dependent == x,
{
    I32Cell::new(x, |o: &i32| -> (d: I32Ref)
        ensures
            d == *o,
        { *o })
}

/// The same cell through the builder that may fail; this one never does.
pub fn i32_cell_try_new_ok(x: i32) -> (res: Result<I32Cell, Box<u32>>)
    ensures
        res is Ok,
        res->Ok_0@.owner == x,
        res->Ok_0@.dependent == x,
{
    I32Cell::try_new(x, |o: &i32| -> (r: Result<I32Ref, Box<u32>>)
        ensures
            r == Ok::<I32Ref, Box<u32>>(*o),
        { Ok(*o) })
}

/// The cells of `0 .. n`, in order.
fn i32_cells(n: i32) -> (cells: Vec<I32Cell>)
    ensures
        cells.len() == (if n > 0 {
            n as int
        } else {
            0
        }),
        forall|i: int|
            0 <= i < cells.len() ==> (#[trigger] cells[i])@.owner == i && cells[i]@.dependent == i,
{
    let mut cells: Vec<I32Cell> = Vec::new();
    let mut x: i32 = 0;
    while x < n
        invariant
            0 <= x,
            x <= n || x == 0,
            cells.len() == x,
            forall|i: int|
                0 <= i < cells.len() ==> (#[trigger] cells[i])@.owner == i && cells[i]@.dependent
                    == i,
        decreases n - x,
    {
        cells.push(i32_cell_new(x));
        x += 1;
    }
    cells
}

/// Builds the cells of `0 .. n` and adds up, for each, its number where that
/// is a multiple of 66, else its number and 8.
pub fn i32_list(n: i32) -> (side_effect: i32)
    requires
        i32_list_sum(n as int) <= i32::MAX,
    ensures
        side_effect == i32_list_sum(n as int),
{
    let cells = i32_cells(n);
    let mut side_effect: i32 = 0;
    let mut i: usize = 0;
    while i < cells.len()
        invariant
            i <= cells.len(),
            cells.len() == (if n > 0 {
                n as int
            } else {
                0
            }),
            side_effect == i32_list_sum(i as int),
            i32_list_sum(cells.len() as int) <= i32::MAX,
            forall|j: int|
                0 <= j < cells.len() ==> (#[trigger] cells[j])@.owner == j && cells[j]@.dependent
                    == j,
        decreases cells.len() - i,
    {
        let cell = &cells[i];
        proof {
            lemma_i32_list_sum_grows(i as int, i as int);
            lemma_i32_list_sum_grows(i as int + 1, cells.len() as int);
        }
        side_effect += if *cell.borrow_dependent() % 66 == 0 {
            *cell.borrow_owner()
        } else {
            *cell.borrow_dependent() + 8
        };
        i += 1;
    }
    side_effect
}

/// Builds the cells of `0 .. n` and, until the sum has reached `2 * n`, adds
/// the number of the cell that the sum picks among the first `n - 66`, and
/// one more.
pub fn i32_random(n: i32) -> (side_effect: i32)
    requires
        n <= 0 || n > 66,
        -0x4000_0000 <= n <= 0x3fff_ffff,
        i32_random_from(n as int, 0) <= i32::MAX,
    ensures
        side_effect == i32_random_from(n as int, 0),
{
    let cells = i32_cells(n);
    let mut side_effect: i32 = 0;
    while side_effect < n * 2
        invariant
            0 <= side_effect,
            n <= 0 || n > 66,
            -0x4000_0000 <= n <= 0x3fff_ffff,
            cells.len() == (if n > 0 {
                n as int
            } else {
                0
            }),
            i32_random_from(n as int, side_effect as int) == i32_random_from(n as int, 0),
            i32_random_from(n as int, 0) <= i32::MAX,
            forall|j: int|
                0 <= j < cells.len() ==> (#[trigger] cells[j])@.owner == j && cells[j]@.dependent
                    == j,
        decreases random_left(n as int, side_effect as int),
    {
        let picked: usize = (side_effect as usize) % (cells.len() - 66);
        proof {
            lemma_i32_random_step_grows(n as int, side_effect as int);
            lemma_i32_random_from_grows(n as int, i32_random_step(n as int, side_effect as int));
        }
        side_effect += *cells[picked].borrow_dependent() + 1;
    }
    side_effect
}

/// Walks `0 .. n` with a cell at every eighth place and none at the others,
/// and adds up the cell's number where there is one, 3 where there is none.
pub fn i32_sparse(n: i32) -> (side_effect: i32)
    requires
        i32_sparse_sum(n as int) <= i32::MAX,
    ensures
        side_effect == i32_sparse_sum(n as int),
{
    let mut cells: Vec<Option<I32Cell>> = Vec::new();
    let mut x: i32 = 0;
    while x < n
        invariant
            0 <= x,
            x <= n || x == 0,
            cells.len() == x,
            forall|i: int|
                0 <= i < cells.len() ==> match #[trigger] cells[i] {
                    Some(cell) => i % 8 == 0 && cell@.owner == i && cell@.dependent == i,
                    None => i % 8 != 0,
                },
        decreases n - x,
    {
        if x % 8 == 0 {
            cells.push(Some(i32_cell_new(x)));
        } else {
            cells.push(None);
        }
        x += 1;
    }
    let mut side_effect: i32 = 0;
    let mut i: usize = 0;
    while i < cells.len()
        invariant
            i <= cells.len(),
            cells.len() == (if n > 0 {
                n as int
            } else {
                0
            }),
            side_effect == i32_sparse_sum(i as int),
            i32_sparse_sum(cells.len() as int) <= i32::MAX,
            forall|j: int|
                0 <= j < cells.len() ==> match #[trigger] cells[j] {
                    Some(cell) => j % 8 == 0 && cell@.owner == j && cell@.dependent == j,
                    None => j % 8 != 0,
                },
        decreases cells.len() - i,
    {
        proof {
            lemma_i32_sparse_sum_grows(i as int, i as int);
            lemma_i32_sparse_sum_grows(i as int + 1, cells.len() as int);
        }
        side_effect += match &cells[i] {
            Some(cell) => *cell.borrow_dependent(),
            None => 3,
        };
        i += 1;
    }
    side_effect
}

/// What the words in the text of `x` add up to: `x` where its text has more
/// than one digit and so is one word, and nothing where it has no word.
pub open spec fn words_number(x: int) -> int {
    if x >= 10 {
        x
    } else {
        0
    }
}

/// What `string_list` adds for the cell of `x`: what its words add up to,
/// or the length of its text where that is a multiple of 66.
pub open spec fn string_list_term(x: int) -> int {
    if words_number(x) % 66 == 0 {
        decimal_text(x).len() as int
    } else {
        words_number(x)
    }
}

/// What `string_list` adds up over the cells of `0 .. n`.
pub open spec fn string_list_sum(n: int) -> int
    decreases n,
{
    if n <= 0 {
        0
    } else {
        string_list_sum(n - 1) + string_list_term(n - 1)
    }
}

/// What `string_sparse` adds for `x`: the length of the cell's text where
/// there is a cell, 3 where there is none.
pub open spec fn string_sparse_term(x: int) -> int {
    if x % 8 == 0 {
        decimal_text(x).len() as int
    } else {
        3
    }
}

/// What `string_sparse` adds up over `0 .. n`.
pub open spec fn string_sparse_sum(n: int) -> int
    decreases n,
{
    if n <= 0 {
        0
    } else {
        string_sparse_sum(n - 1) + string_sparse_term(n - 1)
    }
}

/// One step of `string_random` from the sum `s`: what the words of the cell
/// add up to that `s` picks among the first `n - 66`, and one more.
pub open spec fn string_random_step(n: int, s: int) -> int {
    s + words_number(s % (n - 66)) + 1
}

/// The sum at which `string_random` stops when it stands at `s`: the first
/// sum from there on that has reached `2 * n`.
pub open spec fn string_random_from(n: int, s: int) -> int
    decreases random_left(n, s),
{
    if n <= 66 || s < 0 || s >= 2 * n {
        s
    } else {
        proof {
            lemma_string_random_step_grows(n, s);
        }
        string_random_from(n, string_random_step(n, s))
    }
}

/// A step adds at least one, and less than `n - 65`.
pub proof fn lemma_string_random_step_grows(n: int, s: int)
    requires
        n > 66,
    ensures
        s < string_random_step(n, s) <= s + n - 66,
{
    vstd::arithmetic::div_mod::lemma_mod_bound(s, n - 66);
}

/// `string_random` never stops below the sum it stands at.
pub proof fn lemma_string_random_from_grows(n: int, s: int)
    ensures
        s <= string_random_from(n, s),
    decreases random_left(n, s),
{
    if !(n <= 66 || s < 0 || s >= 2 * n) {
        lemma_string_random_step_grows(n, s);
        lemma_string_random_from_grows(n, string_random_step(n, s));
    }
}

/// A bound on where `string_random` stops, for callers that have to show
/// that the sum fits.
pub proof fn lemma_string_random_from_bound(n: int, s: int)
    requires
        n > 66,
        0 <= s < 2 * n,
    ensures
        string_random_from(n, s) <= 3 * n - 67,
    decreases random_left(n, s),
{
    lemma_string_random_step_grows(n, s);
    let next = string_random_step(n, s);
    if next < 2 * n {
        lemma_string_random_from_bound(n, next);
    } else {
        assert(string_random_from(n, next) == next);
    }
}

/// A bound on the sums of `string_list`, for callers that have to show that
/// a sum fits.
pub proof fn lemma_string_list_sum_bound(n: int)
    requires
        0 <= n,
    ensures
        2 * string_list_sum(n) <= n * (n + 1),
    decreases n,
{
    if n > 0 {
        lemma_string_list_sum_bound(n - 1);
        lemma_decimal_digits_len_bound((n - 1) as nat);
        assert((n - 1) * n + 2 * n == n * (n + 1)) by (nonlinear_arith);
    }
}

/// A bound on the sums of `string_sparse`, for callers that have to show
/// that a sum fits.
pub proof fn lemma_string_sparse_sum_bound(n: int)
    requires
        0 <= n,
    ensures
        2 * string_sparse_sum(n) <= n * (n + 5),
    decreases n,
{
    if n > 0 {
        lemma_string_sparse_sum_bound(n - 1);
        lemma_decimal_digits_len_bound((n - 1) as nat);
        assert((n - 1) * (n + 4) + 2 * (n + 2) == n * (n + 5)) by (nonlinear_arith);
    }
}

/// The sums of `string_list` grow with `n` and start at 0.
pub proof fn lemma_string_list_sum_grows(a: int, b: int)
    requires
        a <= b,
    ensures
        0 <= string_list_sum(a) <= string_list_sum(b),
    decreases b,
{
    if b > 0 {
        if a < b {
            lemma_string_list_sum_grows(a, b - 1);
        } else {
            lemma_string_list_sum_grows(a - 1, b - 1);
        }
    }
}

/// The sums of `string_sparse` grow with `n` and start at 0.
pub proof fn lemma_string_sparse_sum_grows(a: int, b: int)
    requires
        a <= b,
    ensures
        0 <= string_sparse_sum(a) <= string_sparse_sum(b),
    decreases b,
{
    if b > 0 {
        if a < b {
            lemma_string_sparse_sum_grows(a, b - 1);
        } else {
            lemma_string_sparse_sum_grows(a - 1, b - 1);
        }
    }
}

/// A text of digits is one word where it is longer than one byte, and has no
/// word where it is not.
pub proof fn lemma_ast_of_digits(text: Seq<u8>, ast: Seq<Span>, len: usize)
    requires
        all_digits(text),
        len == text.len(),
        is_ast_of(ast, text),
    ensures
        len > 1 ==> ast.len() == 1 && ast[0] == (Span { start: 0, end: len }),
        len <= 1 ==> ast.len() == 0,
{
    assert forall|k: int| 0 <= k < ast.len() implies (#[trigger] ast[k]).start == 0 && ast[k].end
        == len by {
        let span = ast[k];
        assert(is_word(text, span));
        if span.start > 0 {
            assert(is_digit(text[span.start - 1]));
        }
        if span.end < len {
            assert(is_digit(text[span.end as int]));
        }
    }
    if ast.len() >= 2 {
        assert(ast[0].end < ast[1].start);
    }
    if len > 1 {
        let whole = Span { start: 0, end: len };
        assert forall|i: int| whole.start <= i < whole.end implies text[i] != PLUS by {
            assert(is_digit(text[i]));
        }
        assert(is_word(text, whole));
        assert(ast.contains(whole));
    } else if ast.len() >= 1 {
        assert(is_word(text, ast[0]));
    }
}

/// The cells of the texts of `0 .. n`, in order, each with its words.
fn string_cells(n: i32) -> (cells: Vec<StringCell>)
    requires
        joined_size_of::<String, Ast>() != 0,
    ensures
        cells.len() == (if n > 0 {
            n as int
        } else {
            0
        }),
        forall|i: int|
            0 <= i < cells.len() ==> (#[trigger] cells[i])@.owner@ == decimal_text(i) && is_ast_of(
                cells[i]@.dependent@,
                encode_utf8(decimal_text(i)),
            ),
{
    let mut cells: Vec<StringCell> = Vec::new();
    let mut x: i32 = 0;
    while x < n
        invariant
            0 <= x,
            x <= n || x == 0,
            cells.len() == x,
            joined_size_of::<String, Ast>() != 0,
            forall|i: int|
                0 <= i < cells.len() ==> (#[trigger] cells[i])@.owner@ == decimal_text(i)
                    && is_ast_of(cells[i]@.dependent@, encode_utf8(decimal_text(i))),
        decreases n - x,
    {
        cells.push(string_cell_new(decimal(x)));
        x += 1;
    }
    cells
}

/// What the words of `cell` add up to, where its text is that of `x`.
fn words_sum(cell: &StringCell, Ghost(x): Ghost<nat>) -> (sum: i32)
    requires
        x <= i32::MAX,
        cell@.owner@ == decimal_text(x as int),
        is_ast_of(cell@.dependent@, encode_utf8(decimal_text(x as int))),
    ensures
        sum == words_number(x as int),
{
    let bytes = cell.borrow_owner().as_str().as_bytes();
    let ast = cell.borrow_dependent();
    proof {
        lemma_decimal_digits_are_digits(x);
        lemma_number_of_decimal_text(x);
        lemma_ast_of_digits(bytes@, ast@, bytes.len());
    }
    let mut sum: i32 = 0;
    let mut k: usize = 0;
    while k < ast.len()
        invariant
            k <= ast.len(),
            x <= i32::MAX,
            bytes@.len() > 1 ==> ast.len() == 1 && ast[0] == (Span { start: 0, end: bytes.len() }),
            bytes@.len() <= 1 ==> ast.len() == 0,
            number_of(bytes@) == Some(x as int),
            x >= 10 <==> bytes@.len() > 1,
            sum == (if k == 0 {
                0
            } else {
                x as int
            }),
        decreases ast.len() - k,
    {
        let span = ast[k];
        let word = vstd::slice::slice_subrange(bytes, span.start, span.end);
        assert(word@ =~= bytes@);
        sum += parse_i32(word).unwrap();
        k += 1;
    }
    sum
}

/// Builds the cells of the texts of `0 .. n` and adds up, for each, what its
/// words add up to, or the length of its text where that is a multiple of 66.
pub fn string_list(n: i32) -> (side_effect: i32)
    requires
        joined_size_of::<String, Ast>() != 0,
        string_list_sum(n as int) <= i32::MAX,
    ensures
        side_effect == string_list_sum(n as int),
{
    let cells = string_cells(n);
    let mut side_effect: i32 = 0;
    let mut i: usize = 0;
    while i < cells.len()
        invariant
            i <= cells.len(),
            cells.len() == (if n > 0 {
                n as int
            } else {
                0
            }),
            side_effect == string_list_sum(i as int),
            string_list_sum(cells.len() as int) <= i32::MAX,
            forall|j: int|
                0 <= j < cells.len() ==> (#[trigger] cells[j])@.owner@ == decimal_text(j)
                    && is_ast_of(cells[j]@.dependent@, encode_utf8(decimal_text(j))),
        decreases cells.len() - i,
    {
        let cell = &cells[i];
        proof {
            lemma_string_list_sum_grows(i as int, i as int);
            lemma_string_list_sum_grows(i as int + 1, cells.len() as int);
            lemma_decimal_digits_are_digits(i as nat);
        }
        let val = words_sum(cell, Ghost(i as nat));
        side_effect += if val % 66 == 0 {
            cell.borrow_owner().as_str().as_bytes().len() as i32
        } else {
            val
        };
        i += 1;
    }
    side_effect
}

/// Builds the cells of the texts of `0 .. n` and, until the sum has reached
/// `2 * n`, adds what the words of the cell add up to that the sum picks
/// among the first `n - 66`, and one more.
pub fn string_random(n: i32) -> (side_effect: i32)
    requires
        joined_size_of::<String, Ast>() != 0,
        n <= 0 || n > 66,
        -0x4000_0000 <= n <= 0x3fff_ffff,
        string_random_from(n as int, 0) <= i32::MAX,
    ensures
        side_effect == string_random_from(n as int, 0),
{
    let cells = string_cells(n);
    let mut side_effect: i32 = 0;
    while side_effect < n * 2
        invariant
            0 <= side_effect,
            n <= 0 || n > 66,
            -0x4000_0000 <= n <= 0x3fff_ffff,
            cells.len() == (if n > 0 {
                n as int
            } else {
                0
            }),
            string_random_from(n as int, side_effect as int) == string_random_from(n as int, 0),
            string_random_from(n as int, 0) <= i32::MAX,
            forall|j: int|
                0 <= j < cells.len() ==> (#[trigger] cells[j])@.owner@ == decimal_text(j)
                    && is_ast_of(cells[j]@.dependent@, encode_utf8(decimal_text(j))),
        decreases random_left(n as int, side_effect as int),
    {
        let picked: usize = (side_effect as usize) % (cells.len() - 66);
        proof {
            lemma_string_random_step_grows(n as int, side_effect as int);
            lemma_string_random_from_grows(
                n as int,
                string_random_step(n as int, side_effect as int),
            );
        }
        side_effect += words_sum(&cells[picked], Ghost(picked as nat)) + 1;
    }
    side_effect
}

/// Walks `0 .. n` with a cell of the place's text at every eighth place and
/// none at the others, and adds up the length of the cell's text where there
/// is one, 3 where there is none.
pub fn string_sparse(n: i32) -> (side_effect: i32)
    requires
        joined_size_of::<String, Ast>() != 0,
        string_sparse_sum(n as int) <= i32::MAX,
    ensures
        side_effect == string_sparse_sum(n as int),
{
    let mut cells: Vec<Option<StringCell>> = Vec::new();
    let mut x: i32 = 0;
    while x < n
        invariant
            0 <= x,
            x <= n || x == 0,
            cells.len() == x,
            joined_size_of::<String, Ast>() != 0,
            forall|i: int|
                0 <= i < cells.len() ==> match #[trigger] cells[i] {
                    Some(cell) => i % 8 == 0 && cell@.owner@ == decimal_text(i),
                    None => i % 8 != 0,
                },
        decreases n - x,
    {
        if x % 8 == 0 {
            cells.push(Some(string_cell_new(decimal(x))));
        } else {
            cells.push(None);
        }
        x += 1;
    }
    let mut side_effect: i32 = 0;
    let mut i: usize = 0;
    while i < cells.len()
        invariant
            i <= cells.len(),
            cells.len() == (if n > 0 {
                n as int
            } else {
                0
            }),
            side_effect == string_sparse_sum(i as int),
            string_sparse_sum(cells.len() as int) <= i32::MAX,
            forall|j: int|
                0 <= j < cells.len() ==> match #[trigger] cells[j] {
                    Some(cell) => j % 8 == 0 && cell@.owner@ == decimal_text(j),
                    None => j % 8 != 0,
                },
        decreases cells.len() - i,
    {
        proof {
            lemma_string_sparse_sum_grows(i as int, i as int);
            lemma_string_sparse_sum_grows(i as int + 1, cells.len() as int);
            lemma_decimal_digits_are_digits(i as nat);
        }
        side_effect += match &cells[i] {
            Some(cell) => cell.borrow_owner().as_str().as_bytes().len() as i32,
            None => 3,
        };
        i += 1;
    }
    side_effect
}

} // verus!
